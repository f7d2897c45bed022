//! The registry that reconciles open windows against the capture filter.
//!
//! It maps every window the compositor reports open to one [`Capture`], and
//! keeps this invariant: a capture holds a session exactly when its window is
//! in the filter. Adding a window, removing one, and replacing the filter all
//! preserve it, and reconciliation never churns a window whose membership did
//! not change.

use vstd::prelude::*;

use crate::bridge::Action;
use crate::buffer::{Buffer, BufferPool, PoolModel};
use crate::capture::{release_session, Capture, CaptureFilter, CaptureModel};
use crate::session::{CaptureSession, SessionModel};
use crate::window::WindowHandle;

verus! {

/// Window handles mapped to their captures, plus the filter they are
/// reconciled against. Mutated only by the worker.
pub struct CaptureRegistry {
    pub captures: Vec<Capture>,
    pub filter: CaptureFilter,
}

/// The mathematical state of a [`CaptureRegistry`].
pub ghost struct RegistryModel {
    pub captures: Seq<CaptureModel>,
    pub filter: Seq<WindowHandle>,
}

impl View for CaptureRegistry {
    type V = RegistryModel;

    open spec fn view(&self) -> RegistryModel {
        RegistryModel {
            captures: self.captures@.map_values(|c: Capture| c@),
            filter: self.filter.toplevels@,
        }
    }
}

/// Buffers of two captures never alias.
pub open spec fn distinct_buffers(a: CaptureModel, b: CaptureModel) -> bool {
    match (a.held_buffer(), b.held_buffer()) {
        (Some(x), Some(y)) => x.id != y.id,
        _ => true,
    }
}

impl RegistryModel {
    /// Whether this window is tracked, i.e. reported open by the compositor.
    pub open spec fn is_open(self, w: WindowHandle) -> bool {
        exists|i: int| 0 <= i < self.captures.len() && self.captures[i].source == w
    }

    /// Whether this window currently has a live capture session.
    pub open spec fn capturing(self, w: WindowHandle) -> bool {
        exists|i: int|
            0 <= i < self.captures.len() && self.captures[i].source == w
                && self.captures[i].session is Some
    }

    /// Each open window has exactly one capture.
    pub open spec fn distinct_sources(self) -> bool {
        forall|i: int, j: int|
            0 <= i < self.captures.len() && 0 <= j < self.captures.len() && i != j
                ==> self.captures[i].source != self.captures[j].source
    }

    /// A capture holds a session exactly when its window is in the filter.
    pub open spec fn sessions_match_filter(self) -> bool {
        forall|i: int|
            0 <= i < self.captures.len()
                ==> (self.captures[i].session is Some <==> self.filter.contains(
                    self.captures[i].source,
                ))
    }

    /// Registry invariant.
    pub open spec fn wf(self) -> bool {
        self.distinct_sources() && self.sessions_match_filter()
    }

    /// Every session's buffer is really out of the pool, and no two sessions
    /// own the same buffer.
    pub open spec fn buffers_ok(self, p: PoolModel) -> bool {
        &&& forall|i: int| 0 <= i < self.captures.len() ==> self.captures[i].buffer_ok(p)
        &&& forall|i: int, j: int|
            0 <= i < self.captures.len() && 0 <= j < self.captures.len() && i != j
                ==> distinct_buffers(self.captures[i], self.captures[j])
    }
}

/// Whether this capture's session owns the buffer with this id.
pub open spec fn holds_id(c: CaptureModel, id: u64) -> bool {
    match c.held_buffer() {
        Some(b) => b.id == id,
        None => false,
    }
}

/// Whether any tracked session owns the buffer with this id.
pub open spec fn some_session_holds(r: RegistryModel, id: u64) -> bool {
    exists|i: int| 0 <= i < r.captures.len() && holds_id(r.captures[i], id)
}

/// First index of the capture for `w`.
pub open spec fn find_source(captures: Seq<CaptureModel>, w: WindowHandle) -> Option<int>
    decreases captures.len(),
{
    if captures.len() == 0 {
        None
    } else if captures[0].source == w {
        Some(0)
    } else {
        match find_source(captures.drop_first(), w) {
            Some(i) => Some(i + 1),
            None => None,
        }
    }
}

/// What `find_source` returns: the entry for `w` when one exists.
pub proof fn lemma_find_source_props(captures: Seq<CaptureModel>, w: WindowHandle)
    ensures
        match find_source(captures, w) {
            Some(i) => 0 <= i < captures.len() && captures[i].source == w,
            None => forall|j: int| 0 <= j < captures.len() ==> captures[j].source != w,
        },
    decreases captures.len(),
{
    if captures.len() == 0 {
    } else if captures[0].source == w {
    } else {
        lemma_find_source_props(captures.drop_first(), w);
        assert(forall|j: int| 0 <= j < captures.len() - 1
            ==> captures.drop_first()[j] == captures[j + 1]);
        match find_source(captures.drop_first(), w) {
            Some(i) => {
                assert(captures.drop_first()[i].source == w);
            },
            None => {
                assert forall|j: int| 0 <= j < captures.len() implies captures[j].source != w by {
                    if j > 0 {
                        assert(captures.drop_first()[j - 1].source != w);
                    }
                }
            },
        }
    }
}

/// What adding a window leaves behind: a known window changes nothing; a new
/// one gets a capture, started at once when the filter already wants it.
pub open spec fn registry_after_added(r: RegistryModel, w: WindowHandle) -> (RegistryModel, Seq<Action>) {
    if r.is_open(w) {
        (r, Seq::empty())
    } else if r.filter.contains(w) {
        (
            RegistryModel {
                captures: r.captures.push(
                    CaptureModel { source: w, session: Some(SessionModel::Negotiating(Seq::empty())) },
                ),
                ..r
            },
            seq![Action::CreateSession(w)],
        )
    } else {
        (
            RegistryModel { captures: r.captures.push(CaptureModel { source: w, session: None }), ..r },
            Seq::empty(),
        )
    }
}

/// What removing a window leaves behind: its capture goes, its session stops
/// and gives any buffer back; an unknown window changes nothing.
pub open spec fn registry_after_removed(
    r: RegistryModel,
    w: WindowHandle,
    p: PoolModel,
) -> (RegistryModel, PoolModel, Seq<Action>) {
    match find_source(r.captures, w) {
        None => (r, p, Seq::empty()),
        Some(i) => (
            RegistryModel { captures: r.captures.remove(i), ..r },
            release_session(r.captures[i].session, p),
            if r.captures[i].session is Some {
                seq![Action::DestroySession(w)]
            } else {
                Seq::empty()
            },
        ),
    }
}

/// How reconciliation treats one capture: started when newly in the filter,
/// stopped when newly out of it, untouched when its membership is unchanged.
pub open spec fn reconcile_capture(c: CaptureModel, f: Seq<WindowHandle>) -> CaptureModel {
    if f.contains(c.source) && c.session is None {
        CaptureModel { source: c.source, session: Some(SessionModel::Negotiating(Seq::empty())) }
    } else if !f.contains(c.source) && c.session is Some {
        CaptureModel { source: c.source, session: None }
    } else {
        c
    }
}

/// Reconciliation is churn-free: a capture whose filter membership already
/// agrees with its session — in the filter with a session, or out of it
/// without one — is left exactly as it is, and owes no protocol call.
pub proof fn lemma_reconcile_no_churn(c: CaptureModel, f: Seq<WindowHandle>)
    requires
        f.contains(c.source) <==> c.session is Some,
    ensures
        reconcile_capture(c, f) == c,
        reconcile_delta(c, f) == Seq::<Action>::empty(),
{
}

/// The protocol calls one reconciliation step owes for one capture.
pub open spec fn reconcile_delta(c: CaptureModel, f: Seq<WindowHandle>) -> Seq<Action> {
    if f.contains(c.source) && c.session is None {
        seq![Action::CreateSession(c.source)]
    } else if !f.contains(c.source) && c.session is Some {
        seq![Action::DestroySession(c.source)]
    } else {
        Seq::empty()
    }
}

/// All protocol calls a full reconciliation pass owes, in registry order.
pub open spec fn reconcile_actions(captures: Seq<CaptureModel>, f: Seq<WindowHandle>) -> Seq<Action>
    decreases captures.len(),
{
    if captures.len() == 0 {
        Seq::empty()
    } else {
        reconcile_delta(captures[0], f) + reconcile_actions(captures.drop_first(), f)
    }
}

/// The pool after a full reconciliation pass: every stopped session's buffer
/// comes back, in registry order.
pub open spec fn reconcile_pool(
    captures: Seq<CaptureModel>,
    f: Seq<WindowHandle>,
    p: PoolModel,
) -> PoolModel
    decreases captures.len(),
{
    if captures.len() == 0 {
        p
    } else {
        let p1 = if !f.contains(captures[0].source) && captures[0].session is Some {
            release_session(captures[0].session, p)
        } else {
            p
        };
        reconcile_pool(captures.drop_first(), f, p1)
    }
}

proof fn lemma_reconcile_actions_push(s: Seq<CaptureModel>, x: CaptureModel, f: Seq<WindowHandle>)
    ensures
        reconcile_actions(s.push(x), f) == reconcile_actions(s, f) + reconcile_delta(x, f),
    decreases s.len(),
{
    if s.len() == 0 {
        assert(s.push(x)[0] == x);
        assert(s.push(x).drop_first() =~= s);
        assert(reconcile_actions(s, f) + reconcile_delta(x, f) =~= reconcile_delta(x, f));
    } else {
        assert(s.push(x)[0] == s[0]);
        assert(s.push(x).drop_first() =~= s.drop_first().push(x));
        lemma_reconcile_actions_push(s.drop_first(), x, f);
        assert(reconcile_actions(s.push(x), f) =~= reconcile_actions(s, f) + reconcile_delta(x, f));
    }
}

proof fn lemma_reconcile_pool_push(
    s: Seq<CaptureModel>,
    x: CaptureModel,
    f: Seq<WindowHandle>,
    p: PoolModel,
)
    ensures
        reconcile_pool(s.push(x), f, p) == (if !f.contains(x.source) && x.session is Some {
            release_session(x.session, reconcile_pool(s, f, p))
        } else {
            reconcile_pool(s, f, p)
        }),
    decreases s.len(),
{
    if s.len() == 0 {
        assert(s.push(x)[0] == x);
        assert(s.push(x).drop_first() =~= s);
        let p1 = if !f.contains(x.source) && x.session is Some {
            release_session(x.session, p)
        } else {
            p
        };
        assert(reconcile_pool(s, f, p1) == p1);
        assert(reconcile_pool(s.push(x), f, p) == reconcile_pool(s.push(x).drop_first(), f, p1));
    } else {
        assert(s.push(x)[0] == s[0]);
        assert(s.push(x).drop_first() =~= s.drop_first().push(x));
        let p1 = if !f.contains(s[0].source) && s[0].session is Some {
            release_session(s[0].session, p)
        } else {
            p
        };
        lemma_reconcile_pool_push(s.drop_first(), x, f, p1);
        assert(reconcile_pool(s.push(x), f, p) == reconcile_pool(s.drop_first().push(x), f, p1));
        assert(reconcile_pool(s, f, p) == reconcile_pool(s.drop_first(), f, p1));
    }
}

proof fn lemma_find_source_at(captures: Seq<CaptureModel>, w: WindowHandle, i: int)
    requires
        0 <= i < captures.len(),
        captures[i].source == w,
        forall|j: int| 0 <= j < i ==> captures[j].source != w,
    ensures
        find_source(captures, w) == Some(i),
    decreases captures.len(),
{
    if i == 0 {
    } else {
        assert(captures.drop_first()[i - 1] == captures[i]);
        assert(forall|j: int| 0 <= j < i - 1 ==> captures.drop_first()[j] == captures[j + 1]);
        lemma_find_source_at(captures.drop_first(), w, i - 1);
    }
}

proof fn lemma_find_source_none(captures: Seq<CaptureModel>, w: WindowHandle)
    requires
        forall|j: int| 0 <= j < captures.len() ==> captures[j].source != w,
    ensures
        find_source(captures, w) is None,
    decreases captures.len(),
{
    if captures.len() == 0 {
    } else {
        assert(forall|j: int| 0 <= j < captures.len() - 1
            ==> captures.drop_first()[j] == captures[j + 1]);
        lemma_find_source_none(captures.drop_first(), w);
    }
}

impl CaptureRegistry {
    /// An empty registry with an empty filter.
    pub fn new() -> (r: Self)
        ensures
            r@.captures == Seq::<CaptureModel>::empty(),
            r@.filter == Seq::<WindowHandle>::empty(),
            r@.wf(),
    {
        let r = CaptureRegistry {
            captures: Vec::new(),
            filter: CaptureFilter { toplevels: Vec::new() },
        };
        proof {
            assert(r@.captures =~= Seq::<CaptureModel>::empty());
            assert(r@.filter =~= Seq::<WindowHandle>::empty());
        }
        r
    }

    /// The capture tracking `w`, when the window is open.
    #[verifier::loop_isolation(false)]
    pub fn get(&self, w: WindowHandle) -> (r: Option<&Capture>)
        ensures
            (r is Some) == self@.is_open(w),
            r matches Some(c) ==> c@.source == w && (exists|i: int|
                0 <= i < self@.captures.len() && self@.captures[i] == c@),
    {
        let mut i: usize = 0;
        while i < self.captures.len()
            invariant
                i <= self.captures@.len(),
                forall|j: int| 0 <= j < i ==> self@.captures[j].source != w,
            decreases self.captures@.len() - i,
        {
            if self.captures[i].source == w {
                proof {
                    assert(self@.captures[i as int].source == w);
                }
                return Some(&self.captures[i]);
            }
            i += 1;
        }
        None
    }

    /// Whether any tracked session owns the buffer with this id; matches
    /// [`some_session_holds`].
    #[verifier::loop_isolation(false)]
    pub fn any_session_holds(&self, id: u64) -> (r: bool)
        ensures
            r == some_session_holds(self@, id),
    {
        let mut i: usize = 0;
        while i < self.captures.len()
            invariant
                i <= self.captures@.len(),
                forall|j: int| 0 <= j < i ==> !holds_id(self@.captures[j], id),
            decreases self.captures@.len() - i,
        {
            let held: Option<Buffer> = match &self.captures[i].session {
                Some(CaptureSession::BufferReady { buffer }) => Some(*buffer),
                Some(CaptureSession::Capturing { buffer }) => Some(*buffer),
                _ => None,
            };
            if let Some(b) = held {
                if b.id == id {
                    proof {
                        assert(holds_id(self@.captures[i as int], id));
                    }
                    return true;
                }
            }
            proof {
                assert(!holds_id(self@.captures[i as int], id));
            }
            i += 1;
        }
        false
    }

    /// The index of the capture for `w`, per [`find_source`].
    #[verifier::loop_isolation(false)]
    pub fn find(&self, w: WindowHandle) -> (r: Option<usize>)
        ensures
            match r {
                Some(i) => find_source(self@.captures, w) == Some(i as int),
                None => find_source(self@.captures, w) is None,
            },
    {
        let mut i: usize = 0;
        while i < self.captures.len()
            invariant
                i <= self.captures@.len(),
                forall|j: int| 0 <= j < i ==> self@.captures[j].source != w,
            decreases self.captures@.len() - i,
        {
            if self.captures[i].source == w {
                proof {
                    assert(self@.captures[i as int].source == w);
                    lemma_find_source_at(self@.captures, w, i as int);
                }
                return Some(i);
            }
            i += 1;
        }
        proof {
            lemma_find_source_none(self@.captures, w);
        }
        None
    }

    /// A window appeared: insert a capture for it, and start it at once when
    /// the filter already wants it, per [`registry_after_added`]. Knows
    /// nothing new about a window already tracked.
    #[verifier::loop_isolation(false)]
    pub fn on_window_added(&mut self, w: WindowHandle, actions: &mut Vec<Action>) -> (added: bool)
        requires
            old(self)@.wf(),
        ensures
            final(self)@.wf(),
            added == !old(self)@.is_open(w),
            (final(self)@, final(actions)@) == ({
                let (r2, acts) = registry_after_added(old(self)@, w);
                (r2, old(actions)@ + acts)
            }),
            forall|p: PoolModel| old(self)@.buffers_ok(p) ==> final(self)@.buffers_ok(p),
    {
        let mut i: usize = 0;
        while i < self.captures.len()
            invariant
                i <= self.captures@.len(),
                self.captures@ == old(self).captures@,
                self.filter.toplevels@ == old(self).filter.toplevels@,
                actions@ == old(actions)@,
                forall|j: int| 0 <= j < i ==> self@.captures[j].source != w,
            decreases self.captures@.len() - i,
        {
            if self.captures[i].source == w {
                proof {
                    assert(old(self)@.captures[i as int].source == w);
                    assert(actions@ =~= old(actions)@ + Seq::<Action>::empty());
                }
                return false;
            }
            i += 1;
        }
        let in_filter = self.filter.contains(w);
        let session: Option<CaptureSession> = if in_filter {
            Some(CaptureSession::new())
        } else {
            None
        };
        self.captures.push(Capture { source: w, session });
        if in_filter {
            actions.push(Action::CreateSession(w));
        }
        proof {
            let pushed = self@.captures.last();
            assert(self@.captures =~= old(self)@.captures.push(pushed));
            if in_filter {
                assert(pushed == (CaptureModel {
                    source: w,
                    session: Some(SessionModel::Negotiating(Seq::empty())),
                }));
                assert(actions@ =~= old(actions)@ + seq![Action::CreateSession(w)]);
            } else {
                assert(pushed == (CaptureModel { source: w, session: None }));
                assert(actions@ =~= old(actions)@ + Seq::<Action>::empty());
            }
            assert forall|p: PoolModel| old(self)@.buffers_ok(p) implies self@.buffers_ok(p) by {
                assert(forall|k: int| 0 <= k < old(self)@.captures.len()
                    ==> self@.captures[k] == old(self)@.captures[k]);
                assert(pushed.held_buffer() is None);
            }
        }
        true
    }

    /// A window closed: remove and stop its capture, releasing any buffer,
    /// per [`registry_after_removed`]. A no-op for an unknown window, so a
    /// double close is safe.
    #[verifier::loop_isolation(false)]
    pub fn on_window_removed(
        &mut self,
        w: WindowHandle,
        pool: &mut BufferPool,
        actions: &mut Vec<Action>,
    ) -> (removed: bool)
        requires
            old(self)@.wf(),
            old(pool)@.wf(),
        ensures
            final(self)@.wf(),
            final(pool)@.wf(),
            removed == old(self)@.is_open(w),
            (final(self)@, final(pool)@, final(actions)@) == ({
                let (r2, p2, acts) = registry_after_removed(old(self)@, w, old(pool)@);
                (r2, p2, old(actions)@ + acts)
            }),
            old(self)@.buffers_ok(old(pool)@) ==> final(self)@.buffers_ok(final(pool)@),
    {
        let mut i: usize = 0;
        while i < self.captures.len()
            invariant
                i <= self.captures@.len(),
                self.captures@ == old(self).captures@,
                self.filter.toplevels@ == old(self).filter.toplevels@,
                actions@ == old(actions)@,
                pool@ == old(pool)@,
                forall|j: int| 0 <= j < i ==> self@.captures[j].source != w,
            decreases self.captures@.len() - i,
        {
            if self.captures[i].source == w {
                proof {
                    assert(old(self)@.captures[i as int].source == w);
                    lemma_find_source_at(old(self)@.captures, w, i as int);
                }
                let had_session = self.captures[i].session.is_some();
                let held: Option<Buffer> = match &self.captures[i].session {
                    Some(CaptureSession::BufferReady { buffer }) => Some(*buffer),
                    Some(CaptureSession::Capturing { buffer }) => Some(*buffer),
                    _ => None,
                };
                if let Some(b) = held {
                    let _ = pool.release(b);
                }
                let _ = self.captures.remove(i);
                if had_session {
                    actions.push(Action::DestroySession(w));
                }
                proof {
                    assert(self@.captures =~= old(self)@.captures.remove(i as int));
                    if had_session {
                        assert(actions@ =~= old(actions)@ + seq![Action::DestroySession(w)]);
                    } else {
                        assert(actions@ =~= old(actions)@ + Seq::<Action>::empty());
                    }
                    if old(self)@.buffers_ok(old(pool)@) {
                        lemma_buffers_ok_after_remove(old(self)@, i as int, old(pool)@, self@, pool@);
                    }
                }
                return true;
            }
            i += 1;
        }
        proof {
            lemma_find_source_none(self@.captures, w);
            assert(actions@ =~= old(actions)@ + Seq::<Action>::empty());
        }
        false
    }

    /// Reconcile every tracked window against the current filter: start the
    /// newly included, stop the newly excluded, and leave every window whose
    /// membership is unchanged untouched, so sessions never churn. This is
    /// what runs after the filter is replaced, per [`reconcile_capture`],
    /// [`reconcile_actions`] and [`reconcile_pool`].
    #[verifier::loop_isolation(false)]
    pub fn reconcile(&mut self, pool: &mut BufferPool, actions: &mut Vec<Action>)
        requires
            old(self)@.distinct_sources(),
            old(pool)@.wf(),
            old(self)@.buffers_ok(old(pool)@),
        ensures
            final(self)@.filter == old(self)@.filter,
            final(self)@.captures.len() == old(self)@.captures.len(),
            forall|i: int| 0 <= i < old(self)@.captures.len()
                ==> final(self)@.captures[i]
                    == reconcile_capture(old(self)@.captures[i], old(self)@.filter),
            final(self)@.wf(),
            final(pool)@.wf(),
            final(pool)@ == reconcile_pool(old(self)@.captures, old(self)@.filter, old(pool)@),
            final(actions)@ == old(actions)@
                + reconcile_actions(old(self)@.captures, old(self)@.filter),
            final(self)@.buffers_ok(final(pool)@),
    {
        let ghost f = old(self)@.filter;
        let ghost orig = old(self)@.captures;
        let n = self.captures.len();
        let mut i: usize = 0;
        while i < n
            invariant
                i <= n,
                n == self.captures@.len(),
                self.captures@.len() == old(self).captures@.len(),
                self.filter.toplevels@ == old(self).filter.toplevels@,
                forall|j: int| i <= j < n ==> self.captures@[j] == old(self).captures@[j],
                forall|j: int| 0 <= j < i
                    ==> self@.captures[j] == reconcile_capture(orig[j], f),
                pool@ == reconcile_pool(orig.take(i as int), f, old(pool)@),
                actions@ == old(actions)@ + reconcile_actions(orig.take(i as int), f),
                pool@.wf(),
                forall|j: int| 0 <= j < n ==> self@.captures[j].buffer_ok(pool@),
                forall|j: int, k: int| 0 <= j < n && 0 <= k < n && j != k
                    ==> distinct_buffers(self@.captures[j], self@.captures[k]),
            decreases n - i,
        {
            let ghost pre = self@;
            let ghost pre_pool = pool@;
            proof {
                assert(orig.take(i + 1) =~= orig.take(i as int).push(orig[i as int]));
                lemma_reconcile_pool_push(orig.take(i as int), orig[i as int], f, old(pool)@);
                lemma_reconcile_actions_push(orig.take(i as int), orig[i as int], f);
                assert(pre.captures[i as int] == orig[i as int]);
            }
            let w = self.captures[i].source;
            let in_filter = self.filter.contains(w);
            let has_session = self.captures[i].session.is_some();
            if in_filter && !has_session {
                self.captures.set(i, Capture { source: w, session: Some(CaptureSession::new()) });
                actions.push(Action::CreateSession(w));
                proof {
                    assert(actions@ =~= old(actions)@ + reconcile_actions(orig.take(i + 1), f));
                    assert forall|j: int| 0 <= j < n && j != i
                        implies self@.captures[j] == pre.captures[j] by {}
                    assert(self@.captures[i as int] == reconcile_capture(orig[i as int], f));
                    assert forall|j: int| 0 <= j <= i
                        implies self@.captures[j] == reconcile_capture(orig[j], f) by {
                        if j != i {
                            assert(self@.captures[j] == pre.captures[j]);
                            assert(pre.captures[j] == reconcile_capture(orig[j], f));
                        }
                    }
                    assert forall|j: int| 0 <= j < n
                        implies self@.captures[j].buffer_ok(pool@) by {
                        if j != i {
                            assert(self@.captures[j] == pre.captures[j]);
                            assert(pre.captures[j].buffer_ok(pool@));
                        }
                    }
                }
            } else if !in_filter && has_session {
                let held: Option<Buffer> = match &self.captures[i].session {
                    Some(CaptureSession::BufferReady { buffer }) => Some(*buffer),
                    Some(CaptureSession::Capturing { buffer }) => Some(*buffer),
                    _ => None,
                };
                if let Some(b) = held {
                    let _ = pool.release(b);
                }
                self.captures.set(i, Capture { source: w, session: None });
                actions.push(Action::DestroySession(w));
                proof {
                    assert(actions@ =~= old(actions)@ + reconcile_actions(orig.take(i + 1), f));
                    assert forall|j: int| 0 <= j < n && j != i
                        implies self@.captures[j] == pre.captures[j] by {}
                    assert(self@.captures[i as int] == reconcile_capture(orig[i as int], f));
                    assert forall|j: int| 0 <= j < n implies self@.captures[j].buffer_ok(pool@) by {
                        if j != i {
                            assert(self@.captures[j] == pre.captures[j]);
                            assert(pre.captures[j].buffer_ok(pre_pool));
                            assert(distinct_buffers(pre.captures[j], pre.captures[i as int]));
                        }
                    }
                    assert forall|j: int, k: int| 0 <= j < n && 0 <= k < n && j != k
                        implies distinct_buffers(self@.captures[j], self@.captures[k]) by {
                        if j != i && k != i {
                            assert(self@.captures[j] == pre.captures[j]);
                            assert(self@.captures[k] == pre.captures[k]);
                        }
                    }
                    assert forall|j: int| 0 <= j <= i
                        implies self@.captures[j] == reconcile_capture(orig[j], f) by {
                        if j != i {
                            assert(self@.captures[j] == pre.captures[j]);
                            assert(pre.captures[j] == reconcile_capture(orig[j], f));
                        }
                    }
                }
            } else {
                proof {
                    assert(actions@ =~= old(actions)@ + reconcile_actions(orig.take(i + 1), f));
                    assert(self@.captures[i as int] == reconcile_capture(orig[i as int], f));
                    assert forall|j: int| 0 <= j <= i
                        implies self@.captures[j] == reconcile_capture(orig[j], f) by {
                        if j != i {
                            assert(pre.captures[j] == reconcile_capture(orig[j], f));
                        }
                    }
                }
            }
            i += 1;
        }
        proof {
            assert(orig.take(n as int) =~= orig);
            assert forall|j: int| 0 <= j < n implies (final(self)@.captures[j].session is Some
                <==> final(self)@.filter.contains(final(self)@.captures[j].source)) by {
                assert(self@.captures[j] == reconcile_capture(orig[j], f));
            }
        }
    }

    /// Replace the filter, then reconcile fully before anything else is
    /// processed: stop the removed windows, start the added ones. Atomic in
    /// the sense that no other event is handled half-way through.
    pub fn set_filter(
        &mut self,
        filter: CaptureFilter,
        pool: &mut BufferPool,
        actions: &mut Vec<Action>,
    )
        requires
            old(self)@.distinct_sources(),
            old(pool)@.wf(),
            old(self)@.buffers_ok(old(pool)@),
        ensures
            final(self)@.filter == filter.toplevels@,
            final(self)@.captures.len() == old(self)@.captures.len(),
            forall|i: int| 0 <= i < old(self)@.captures.len()
                ==> final(self)@.captures[i]
                    == reconcile_capture(old(self)@.captures[i], filter.toplevels@),
            final(self)@.wf(),
            final(pool)@.wf(),
            final(pool)@ == reconcile_pool(old(self)@.captures, filter.toplevels@, old(pool)@),
            final(actions)@ == old(actions)@
                + reconcile_actions(old(self)@.captures, filter.toplevels@),
            final(self)@.buffers_ok(final(pool)@),
    {
        self.filter = filter;
        self.reconcile(pool, actions);
    }
}

impl Capture {
    /// The capture that owns a session, found by resolving the session's
    /// non-owning back-reference — the window handle it was created for —
    /// through the registry. `None` when the capture has been destroyed.
    pub fn for_session(registry: &CaptureRegistry, owner: WindowHandle) -> (r: Option<&Capture>)
        ensures
            (r is Some) == registry@.is_open(owner),
            r matches Some(c) ==> c@.source == owner && (exists|i: int|
                0 <= i < registry@.captures.len() && registry@.captures[i] == c@),
    {
        registry.get(owner)
    }
}

/// The filter/session invariant: in a well-formed registry a window has a
/// live capture session exactly when it is both currently open and currently
/// a member of the filter. Reconciliation re-establishes well-formedness
/// after every filter change and every window add or remove, so this holds
/// whenever the worker is at rest.
pub proof fn lemma_filter_session_invariant(r: RegistryModel, w: WindowHandle)
    requires
        r.wf(),
    ensures
        r.capturing(w) <==> (r.is_open(w) && r.filter.contains(w)),
{
    if r.capturing(w) {
        let i = choose|i: int|
            0 <= i < r.captures.len() && r.captures[i].source == w
                && r.captures[i].session is Some;
        assert(r.captures[i].session is Some);
        assert(r.filter.contains(r.captures[i].source));
    }
    if r.is_open(w) && r.filter.contains(w) {
        let i = choose|i: int| 0 <= i < r.captures.len() && r.captures[i].source == w;
        assert(r.captures[i].session is Some);
    }
}

/// Removing entry `i` and releasing its buffer keeps every other capture's
/// buffer out of the pool's free list.
proof fn lemma_buffers_ok_after_remove(
    r: RegistryModel,
    i: int,
    p: PoolModel,
    r2: RegistryModel,
    p2: PoolModel,
)
    requires
        r.buffers_ok(p),
        p.wf(),
        0 <= i < r.captures.len(),
        r2.captures == r.captures.remove(i),
        p2 == release_session(r.captures[i].session, p),
    ensures
        r2.buffers_ok(p2),
{
    assert forall|k: int| 0 <= k < r2.captures.len() implies r2.captures[k].buffer_ok(p2) by {
        let orig = if k < i {
            k
        } else {
            k + 1
        };
        assert(r2.captures[k] == r.captures[orig]);
        assert(r.captures[orig].buffer_ok(p));
        assert(distinct_buffers(r.captures[orig], r.captures[i]));
    }
    assert forall|k: int, l: int|
        0 <= k < r2.captures.len() && 0 <= l < r2.captures.len() && k != l implies distinct_buffers(
        r2.captures[k],
        r2.captures[l],
    ) by {
        let ok = if k < i {
            k
        } else {
            k + 1
        };
        let ol = if l < i {
            l
        } else {
            l + 1
        };
        assert(r2.captures[k] == r.captures[ok]);
        assert(r2.captures[l] == r.captures[ol]);
    }
}

} // verus!
