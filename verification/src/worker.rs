//! The protocol worker's state and decisions.
//!
//! One `AppData` value holds everything the worker owns: the capture
//! registry and filter, the buffer pool, the workspace list, and the outboxes
//! of updates for the UI and protocol actions for the event loop. Every
//! decision the worker makes — on a UI request or on a compositor event — is
//! a method here, from plain values to plain values; the blocking event loop
//! around it only performs the actions, forwards the events, and drains the
//! outboxes.

use vstd::prelude::*;

use crate::bridge::{
    Action, ExecRequestData, ToplevelRequest, ToplevelUpdate, WaylandRequest, WaylandUpdate,
    WorkspaceUpdate,
};
use crate::buffer::{
    lemma_acquire_preserves_absent, lemma_release_preserves_absent, Buffer, BufferPool,
    CaptureImage, FormatOffer, PoolModel,
};
use crate::capture::CaptureModel;
use crate::order::{frames_ordered, is_capture, lemma_frames_ordered_push, lemma_open_in_push, open_in};
use crate::session::{
    session_after_arm, session_after_failure, session_after_frame, session_after_offer,
    session_after_offers_done, session_after_resize, CaptureSession, SessionModel,
};
use crate::registry::{
    find_source, lemma_find_source_props, reconcile_actions, reconcile_capture, reconcile_pool,
    registry_after_added, registry_after_removed, CaptureRegistry, RegistryModel,
};
use crate::window::{WindowHandle, WindowInfo, Workspace, WorkspaceGroup, WorkspaceHandle};

verus! {

/// Everything the worker owns. Only the worker's one thread ever touches a
/// value of this type, so no lock guards it.
pub struct AppData {
    /// Set when the command channel closes; the loop finishes its pass and
    /// stops.
    pub exit: bool,
    /// Whether the compositor reported a seat; window activation needs one.
    pub has_seat: bool,
    /// Whether the compositor supports activation-token issuance.
    pub activation_supported: bool,
    /// Open windows, their captures, and the filter.
    pub registry: CaptureRegistry,
    /// The pixel-buffer pool all sessions draw from.
    pub pool: BufferPool,
    /// Workspace groups as last enumerated by the compositor.
    pub workspace_groups: Vec<WorkspaceGroup>,
    /// Updates not yet drained to the UI, oldest first.
    pub updates: Vec<WaylandUpdate>,
    /// Protocol actions not yet performed by the event loop, oldest first.
    pub actions: Vec<Action>,
    /// Every update ever emitted, in emission order.
    pub history: Ghost<Seq<WaylandUpdate>>,
}

/// The mathematical state of an [`AppData`].
pub ghost struct WorkerModel {
    pub exit: bool,
    pub has_seat: bool,
    pub activation_supported: bool,
    pub registry: RegistryModel,
    pub pool: PoolModel,
    pub workspaces: Seq<Seq<Workspace>>,
    pub updates: Seq<WaylandUpdate>,
    pub actions: Seq<Action>,
    pub history: Seq<WaylandUpdate>,
}

impl View for AppData {
    type V = WorkerModel;

    open spec fn view(&self) -> WorkerModel {
        WorkerModel {
            exit: self.exit,
            has_seat: self.has_seat,
            activation_supported: self.activation_supported,
            registry: self.registry@,
            pool: self.pool@,
            workspaces: self.workspace_groups@.map_values(|g: WorkspaceGroup| g.workspaces@),
            updates: self.updates@,
            actions: self.actions@,
            history: self.history@,
        }
    }
}

impl WorkerModel {
    /// The worker invariant: the registry and pool are well formed, session
    /// buffers are really out of the pool and never shared, the windows that
    /// stand announced open in the update history are exactly the tracked
    /// ones, and frames were only ever emitted for windows standing open.
    pub open spec fn wf(self) -> bool {
        &&& self.registry.wf()
        &&& self.pool.wf()
        &&& self.registry.buffers_ok(self.pool)
        &&& forall|w: WindowHandle|
            #![trigger self.registry.is_open(w)]
            #![trigger open_in(self.history, w)]
            self.registry.is_open(w) <==> open_in(self.history, w)
        &&& frames_ordered(self.history)
    }

    /// When an update may be emitted without breaking the invariant: window
    /// lifecycle news must agree with the registry, and a frame needs its
    /// window open.
    pub open spec fn emit_ok(self, u: WaylandUpdate) -> bool {
        match u {
            WaylandUpdate::Toplevel(ToplevelUpdate::Add(w, _)) => self.registry.is_open(w),
            WaylandUpdate::Toplevel(ToplevelUpdate::Remove(w)) => !self.registry.is_open(w),
            WaylandUpdate::ToplevelCapture(w, _) => self.registry.is_open(w),
            _ => true,
        }
    }
}

impl AppData {
    /// A fresh worker: nothing tracked, nothing emitted, a buffer pool with
    /// a mint budget of `limit`, and the compositor capabilities as the
    /// event loop discovered them.
    pub fn new(limit: u64, gpu_available: bool, activation_supported: bool, has_seat: bool) -> (d: Self)
        ensures
            d@.wf(),
            d@ == (WorkerModel {
                exit: false,
                has_seat,
                activation_supported,
                registry: RegistryModel {
                    captures: Seq::empty(),
                    filter: Seq::empty(),
                },
                pool: PoolModel {
                    free: Seq::empty(),
                    next_id: 0,
                    limit,
                    gpu_available,
                },
                workspaces: Seq::empty(),
                updates: Seq::empty(),
                actions: Seq::empty(),
                history: Seq::empty(),
            }),
    {
        let d = AppData {
            exit: false,
            has_seat,
            activation_supported,
            registry: CaptureRegistry::new(),
            pool: BufferPool::new(limit, gpu_available),
            workspace_groups: Vec::new(),
            updates: Vec::new(),
            actions: Vec::new(),
            history: Ghost(Seq::empty()),
        };
        proof {
            assert(d@.workspaces =~= Seq::<Seq<Workspace>>::empty());
            assert(d@.updates =~= Seq::<WaylandUpdate>::empty());
            assert(d@.actions =~= Seq::<Action>::empty());
            assert(d@.registry.captures =~= Seq::<crate::capture::CaptureModel>::empty());
        }
        d
    }

    /// Append one update to the outbox and to the emission history. The
    /// callers re-establish the worker invariant around it.
    fn push_update(&mut self, u: WaylandUpdate)
        ensures
            final(self)@ == (WorkerModel {
                updates: old(self)@.updates.push(u),
                history: old(self)@.history.push(u),
                ..old(self)@
            }),
    {
        proof {
            self.history@ = self.history@.push(u);
        }
        self.updates.push(u);
    }

    /// Push an update value onto the stream for the UI. Every emission a
    /// method of this type makes goes through the same outbox and history.
    pub fn send_event(&mut self, update: WaylandUpdate)
        requires
            old(self)@.wf(),
            old(self)@.emit_ok(update),
        ensures
            final(self)@.wf(),
            final(self)@ == (WorkerModel {
                updates: old(self)@.updates.push(update),
                history: old(self)@.history.push(update),
                ..old(self)@
            }),
    {
        proof {
            lemma_emit_preserves_wf(old(self)@, update);
        }
        self.push_update(update);
    }

    /// Whether this window is in the current capture filter.
    pub fn matches_capture_filter(&self, source: WindowHandle) -> (r: bool)
        ensures
            r == self@.registry.filter.contains(source),
    {
        self.registry.filter.contains(source)
    }
}

impl AppData {
    /// A window appeared, with its first info value: track it, start its
    /// capture at once when the filter wants it, and announce it to the UI.
    pub fn new_toplevel(&mut self, toplevel: WindowHandle, info: WindowInfo)
        requires
            old(self)@.wf(),
        ensures
            final(self)@.wf(),
            ({
                let (r2, acts) = registry_after_added(old(self)@.registry, toplevel);
                let u = WaylandUpdate::Toplevel(ToplevelUpdate::Add(toplevel, info));
                final(self)@ == (WorkerModel {
                    registry: r2,
                    actions: old(self)@.actions + acts,
                    updates: old(self)@.updates.push(u),
                    history: old(self)@.history.push(u),
                    ..old(self)@
                })
            }),
    {
        let ghost pre = self@;
        let _ = self.registry.on_window_added(toplevel, &mut self.actions);
        self.push_update(WaylandUpdate::Toplevel(ToplevelUpdate::Add(toplevel, info)));
        proof {
            let u = WaylandUpdate::Toplevel(ToplevelUpdate::Add(toplevel, info));
            let (r2, acts) = registry_after_added(pre.registry, toplevel);
            assert(self@.registry == r2);
            if !pre.registry.is_open(toplevel) {
                lemma_is_open_push(
                    pre.registry,
                    r2.captures[pre.registry.captures.len() as int],
                    toplevel,
                );
            }
            assert(self@.registry.is_open(toplevel));
            assert forall|w: WindowHandle| self@.registry.is_open(w) <==> open_in(
                self@.history,
                w,
            ) by {
                lemma_open_in_push(pre.history, u, w);
                if !pre.registry.is_open(toplevel) {
                    lemma_is_open_push(
                        pre.registry,
                        r2.captures[pre.registry.captures.len() as int],
                        w,
                    );
                }
            }
            assert forall|w: WindowHandle| #[trigger] is_capture(u, w) implies open_in(
                pre.history,
                w,
            ) by {}
            lemma_frames_ordered_push(pre.history, u);
            assert forall|i: int| 0 <= i < r2.captures.len() implies r2.captures[i].buffer_ok(
                self@.pool,
            ) by {
                if i < pre.registry.captures.len() {
                    assert(pre.registry.captures[i].buffer_ok(pre.pool));
                }
            }
        }
    }

    /// A window's info changed: announce the replacement value to the UI.
    /// Nothing else changes; the capture and its session are untouched.
    pub fn update_toplevel(&mut self, toplevel: WindowHandle, info: WindowInfo)
        requires
            old(self)@.wf(),
        ensures
            final(self)@.wf(),
            ({
                let u = WaylandUpdate::Toplevel(ToplevelUpdate::Update(toplevel, info));
                final(self)@ == (WorkerModel {
                    updates: old(self)@.updates.push(u),
                    history: old(self)@.history.push(u),
                    ..old(self)@
                })
            }),
    {
        proof {
            lemma_emit_preserves_wf(
                old(self)@,
                WaylandUpdate::Toplevel(ToplevelUpdate::Update(toplevel, info)),
            );
        }
        self.push_update(WaylandUpdate::Toplevel(ToplevelUpdate::Update(toplevel, info)));
    }

    /// A window closed: stop and drop its capture, releasing any buffer, and
    /// announce the removal. Safe to receive twice: the second pass finds
    /// nothing to remove and only repeats the announcement.
    pub fn toplevel_closed(&mut self, toplevel: WindowHandle)
        requires
            old(self)@.wf(),
        ensures
            final(self)@.wf(),
            ({
                let (r2, p2, acts) = registry_after_removed(
                    old(self)@.registry,
                    toplevel,
                    old(self)@.pool,
                );
                let u = WaylandUpdate::Toplevel(ToplevelUpdate::Remove(toplevel));
                final(self)@ == (WorkerModel {
                    registry: r2,
                    pool: p2,
                    actions: old(self)@.actions + acts,
                    updates: old(self)@.updates.push(u),
                    history: old(self)@.history.push(u),
                    ..old(self)@
                })
            }),
    {
        let ghost pre = self@;
        let _ = self.registry.on_window_removed(toplevel, &mut self.pool, &mut self.actions);
        self.push_update(WaylandUpdate::Toplevel(ToplevelUpdate::Remove(toplevel)));
        proof {
            let u = WaylandUpdate::Toplevel(ToplevelUpdate::Remove(toplevel));
            lemma_find_source_props(pre.registry.captures, toplevel);
            assert forall|w: WindowHandle| self@.registry.is_open(w) <==> open_in(
                self@.history,
                w,
            ) by {
                lemma_open_in_push(pre.history, u, w);
                match find_source(pre.registry.captures, toplevel) {
                    Some(i) => {
                        lemma_is_open_remove(pre.registry, i, w);
                    },
                    None => {},
                }
            }
            assert forall|w: WindowHandle| #[trigger] is_capture(u, w) implies open_in(
                pre.history,
                w,
            ) by {}
            lemma_frames_ordered_push(pre.history, u);
        }
    }
}

/// The first active workspace in one group, in enumeration order.
pub open spec fn first_active_in(ws: Seq<Workspace>) -> Option<WorkspaceHandle>
    decreases ws.len(),
{
    if ws.len() == 0 {
        None
    } else if ws[0].active {
        Some(ws[0].handle)
    } else {
        first_active_in(ws.drop_first())
    }
}

/// The first active workspace over all groups, group-major.
pub open spec fn first_active(groups: Seq<Seq<Workspace>>) -> Option<WorkspaceHandle>
    decreases groups.len(),
{
    if groups.len() == 0 {
        None
    } else {
        match first_active_in(groups[0]) {
            Some(h) => Some(h),
            None => first_active(groups.drop_first()),
        }
    }
}

proof fn lemma_first_active_in_at(ws: Seq<Workspace>, i: int)
    requires
        0 <= i < ws.len(),
        ws[i].active,
        forall|j: int| 0 <= j < i ==> !ws[j].active,
    ensures
        first_active_in(ws) == Some(ws[i].handle),
    decreases ws.len(),
{
    if i == 0 {
    } else {
        assert(ws.drop_first()[i - 1] == ws[i]);
        assert(forall|j: int| 0 <= j < i - 1 ==> ws.drop_first()[j] == ws[j + 1]);
        lemma_first_active_in_at(ws.drop_first(), i - 1);
    }
}

proof fn lemma_first_active_in_none(ws: Seq<Workspace>)
    requires
        forall|j: int| 0 <= j < ws.len() ==> !ws[j].active,
    ensures
        first_active_in(ws) is None,
    decreases ws.len(),
{
    if ws.len() == 0 {
    } else {
        assert(forall|j: int| 0 <= j < ws.len() - 1 ==> ws.drop_first()[j] == ws[j + 1]);
        lemma_first_active_in_none(ws.drop_first());
    }
}

proof fn lemma_first_active_at(groups: Seq<Seq<Workspace>>, g: int)
    requires
        0 <= g < groups.len(),
        first_active_in(groups[g]) is Some,
        forall|j: int| 0 <= j < g ==> first_active_in(groups[j]) is None,
    ensures
        first_active(groups) == first_active_in(groups[g]),
    decreases groups.len(),
{
    if g == 0 {
    } else {
        assert(groups.drop_first()[g - 1] == groups[g]);
        assert(forall|j: int| 0 <= j < g - 1 ==> groups.drop_first()[j] == groups[j + 1]);
        lemma_first_active_at(groups.drop_first(), g - 1);
    }
}

proof fn lemma_first_active_none(groups: Seq<Seq<Workspace>>)
    requires
        forall|j: int| 0 <= j < groups.len() ==> first_active_in(groups[j]) is None,
    ensures
        first_active(groups) is None,
    decreases groups.len(),
{
    if groups.len() == 0 {
    } else {
        assert(forall|j: int| 0 <= j < groups.len() - 1 ==> groups.drop_first()[j] == groups[j + 1]);
        lemma_first_active_none(groups.drop_first());
    }
}

impl AppData {
    /// The compositor finished a workspace batch: announce the first active
    /// workspace, group-major, and nothing when none is active.
    #[verifier::loop_isolation(false)]
    pub fn done(&mut self)
        requires
            old(self)@.wf(),
        ensures
            final(self)@.wf(),
            match first_active(old(self)@.workspaces) {
                Some(h) => ({
                    let u = WaylandUpdate::Workspace(WorkspaceUpdate::Enter(h));
                    final(self)@ == (WorkerModel {
                        updates: old(self)@.updates.push(u),
                        history: old(self)@.history.push(u),
                        ..old(self)@
                    })
                }),
                None => final(self)@ == old(self)@,
            },
    {
        let ghost groups = self@.workspaces;
        let mut gi: usize = 0;
        while gi < self.workspace_groups.len()
            invariant
                gi <= self.workspace_groups@.len(),
                self.workspace_groups@ == old(self).workspace_groups@,
                self.updates@ == old(self).updates@,
                self.history@ == old(self).history@,
                self.exit == old(self).exit,
                self.has_seat == old(self).has_seat,
                self.activation_supported == old(self).activation_supported,
                self.registry.captures@ == old(self).registry.captures@,
                self.registry.filter.toplevels@ == old(self).registry.filter.toplevels@,
                self.pool@ == old(self).pool@,
                self.actions@ == old(self).actions@,
                forall|j: int| 0 <= j < gi ==> first_active_in(groups[j]) is None,
            decreases self.workspace_groups@.len() - gi,
        {
            let ghost ws = groups[gi as int];
            let n = self.workspace_groups[gi].workspaces.len();
            let mut wi: usize = 0;
            while wi < n
                invariant
                    wi <= n,
                    gi < self.workspace_groups@.len(),
                    n == self.workspace_groups@[gi as int].workspaces@.len(),
                    self.workspace_groups@ == old(self).workspace_groups@,
                    self.updates@ == old(self).updates@,
                    self.history@ == old(self).history@,
                    self.exit == old(self).exit,
                    self.has_seat == old(self).has_seat,
                    self.activation_supported == old(self).activation_supported,
                    self.registry.captures@ == old(self).registry.captures@,
                    self.registry.filter.toplevels@ == old(self).registry.filter.toplevels@,
                    self.pool@ == old(self).pool@,
                    self.actions@ == old(self).actions@,
                    ws == groups[gi as int],
                    forall|j: int| 0 <= j < wi ==> !ws[j].active,
                decreases n - wi,
            {
                let w = self.workspace_groups[gi].workspaces[wi];
                proof {
                    assert(ws[wi as int] == w);
                }
                if w.active {
                    proof {
                        lemma_first_active_in_at(ws, wi as int);
                        lemma_first_active_at(groups, gi as int);
                        lemma_emit_preserves_wf(
                            old(self)@,
                            WaylandUpdate::Workspace(WorkspaceUpdate::Enter(w.handle)),
                        );
                    }
                    self.push_update(WaylandUpdate::Workspace(WorkspaceUpdate::Enter(w.handle)));
                    return;
                }
                wi += 1;
            }
            proof {
                lemma_first_active_in_none(ws);
            }
            gi += 1;
        }
        proof {
            lemma_first_active_none(groups);
        }
    }
}

/// The protocol calls one window-management request owes: activation needs
/// a seat and is dropped without one; minimize and close always go out.
pub open spec fn toplevel_request_actions(m: WorkerModel, t: ToplevelRequest) -> Seq<Action> {
    match t {
        ToplevelRequest::Activate(h) => if m.has_seat {
            seq![Action::Activate(h)]
        } else {
            Seq::empty()
        },
        ToplevelRequest::Minimize(h) => seq![Action::Minimize(h)],
        ToplevelRequest::Quit(h) => seq![Action::Quit(h)],
    }
}

impl AppData {
    /// One inbound UI request. A filter replacement reconciles fully before
    /// anything else is processed. Window-management requests only queue the
    /// protocol call: no local state changes, the compositor's answer
    /// arrives later as an event. A token request against a compositor
    /// without activation support is answered at once with an empty token,
    /// in this same step, so the UI is never left waiting.
    pub fn handle_request(&mut self, req: WaylandRequest)
        requires
            old(self)@.wf(),
        ensures
            final(self)@.wf(),
            req matches WaylandRequest::CaptureFilter(f) ==> final(self)@ == (WorkerModel {
                registry: RegistryModel {
                    captures: old(self)@.registry.captures.map_values(
                        |c: CaptureModel| reconcile_capture(c, f.toplevels@),
                    ),
                    filter: f.toplevels@,
                },
                pool: reconcile_pool(
                    old(self)@.registry.captures,
                    f.toplevels@,
                    old(self)@.pool,
                ),
                actions: old(self)@.actions + reconcile_actions(
                    old(self)@.registry.captures,
                    f.toplevels@,
                ),
                ..old(self)@
            }),
            req matches WaylandRequest::Toplevel(t) ==> final(self)@ == (WorkerModel {
                actions: old(self)@.actions + toplevel_request_actions(old(self)@, t),
                ..old(self)@
            }),
            req matches WaylandRequest::TokenRequest { app_id, exec_cmd, gpu_idx }
                ==> if old(self)@.activation_supported {
                    final(self)@ == (WorkerModel {
                        actions: old(self)@.actions.push(
                            Action::RequestToken { app_id, exec_cmd, gpu_idx },
                        ),
                        ..old(self)@
                    })
                } else {
                    ({
                        let u = WaylandUpdate::ActivationToken { token: None, exec_cmd, gpu_idx };
                        final(self)@ == (WorkerModel {
                            updates: old(self)@.updates.push(u),
                            history: old(self)@.history.push(u),
                            ..old(self)@
                        })
                    })
                },
    {
        let ghost pre = self@;
        match req {
            WaylandRequest::CaptureFilter(filter) => {
                let ghost f2 = filter.toplevels@;
                self.registry.set_filter(filter, &mut self.pool, &mut self.actions);
                proof {
                    assert(self@.registry.captures =~= pre.registry.captures.map_values(
                        |c: CaptureModel| reconcile_capture(c, f2),
                    ));
                    assert forall|w: WindowHandle| self@.registry.is_open(w) <==> open_in(
                        self@.history,
                        w,
                    ) by {
                        if self@.registry.is_open(w) {
                            let i = choose|i: int|
                                0 <= i < self@.registry.captures.len()
                                    && self@.registry.captures[i].source == w;
                            assert(pre.registry.captures[i].source == w);
                        }
                        if open_in(self@.history, w) {
                            let i = choose|i: int|
                                0 <= i < pre.registry.captures.len()
                                    && pre.registry.captures[i].source == w;
                            assert(self@.registry.captures[i].source == w);
                        }
                    }
                }
            },
            WaylandRequest::Toplevel(t) => match t {
                ToplevelRequest::Activate(handle) => {
                    if self.has_seat {
                        self.actions.push(Action::Activate(handle));
                        proof {
                            assert(self@.actions =~= pre.actions
                                + seq![Action::Activate(handle)]);
                        }
                    } else {
                        proof {
                            assert(self@.actions =~= pre.actions + Seq::<Action>::empty());
                        }
                    }
                },
                ToplevelRequest::Minimize(handle) => {
                    self.actions.push(Action::Minimize(handle));
                    proof {
                        assert(self@.actions =~= pre.actions + seq![Action::Minimize(handle)]);
                    }
                },
                ToplevelRequest::Quit(handle) => {
                    self.actions.push(Action::Quit(handle));
                    proof {
                        assert(self@.actions =~= pre.actions + seq![Action::Quit(handle)]);
                    }
                },
            },
            WaylandRequest::TokenRequest { app_id, exec_cmd, gpu_idx } => {
                if self.activation_supported {
                    self.actions.push(Action::RequestToken { app_id, exec_cmd, gpu_idx });
                } else {
                    proof {
                        lemma_emit_preserves_wf(
                            pre,
                            WaylandUpdate::ActivationToken { token: None, exec_cmd, gpu_idx },
                        );
                    }
                    self.push_update(
                        WaylandUpdate::ActivationToken { token: None, exec_cmd, gpu_idx },
                    );
                }
            },
        }
    }

    /// Re-reconcile every tracked window against the current filter. The
    /// filter-replacement request runs this after swapping the filter in;
    /// it is also safe to run at any quiet point, and then changes nothing:
    /// a window whose membership is unchanged is never churned.
    pub fn invalidate_capture_filter(&mut self)
        requires
            old(self)@.wf(),
        ensures
            final(self)@.wf(),
            final(self)@ == (WorkerModel {
                registry: RegistryModel {
                    captures: old(self)@.registry.captures.map_values(
                        |c: CaptureModel| reconcile_capture(c, old(self)@.registry.filter),
                    ),
                    filter: old(self)@.registry.filter,
                },
                pool: reconcile_pool(
                    old(self)@.registry.captures,
                    old(self)@.registry.filter,
                    old(self)@.pool,
                ),
                actions: old(self)@.actions + reconcile_actions(
                    old(self)@.registry.captures,
                    old(self)@.registry.filter,
                ),
                ..old(self)@
            }),
    {
        let ghost pre = self@;
        let ghost f2 = pre.registry.filter;
        self.registry.reconcile(&mut self.pool, &mut self.actions);
        proof {
            assert(self@.registry.captures =~= pre.registry.captures.map_values(
                |c: CaptureModel| reconcile_capture(c, f2),
            ));
            assert forall|w: WindowHandle| self@.registry.is_open(w) <==> open_in(
                self@.history,
                w,
            ) by {
                if self@.registry.is_open(w) {
                    let i = choose|i: int|
                        0 <= i < self@.registry.captures.len()
                            && self@.registry.captures[i].source == w;
                    assert(pre.registry.captures[i].source == w);
                }
                if open_in(self@.history, w) {
                    let i = choose|i: int|
                        0 <= i < pre.registry.captures.len()
                            && pre.registry.captures[i].source == w;
                    assert(self@.registry.captures[i].source == w);
                }
            }
        }
    }

    /// The compositor minted an activation token for a pending request:
    /// forward it, with the command line and GPU choice it belongs to.
    pub fn new_token(&mut self, token: String, data: &ExecRequestData)
        requires
            old(self)@.wf(),
        ensures
            final(self)@.wf(),
            ({
                let u = WaylandUpdate::ActivationToken {
                    token: Some(token),
                    exec_cmd: data.exec_cmd,
                    gpu_idx: data.gpu_idx,
                };
                final(self)@ == (WorkerModel {
                    updates: old(self)@.updates.push(u),
                    history: old(self)@.history.push(u),
                    ..old(self)@
                })
            }),
    {
        let u = WaylandUpdate::ActivationToken {
            token: Some(token),
            exec_cmd: data.exec_cmd.clone(),
            gpu_idx: data.gpu_idx,
        };
        proof {
            lemma_emit_preserves_wf(old(self)@, u);
        }
        self.push_update(u);
    }

    /// The inbound command channel closed: a clean shutdown request, not an
    /// error. The worker announces it is finished and sets its exit flag;
    /// the loop lets the current dispatch pass complete and stops.
    pub fn on_channel_closed(&mut self)
        requires
            old(self)@.wf(),
        ensures
            final(self)@.wf(),
            final(self)@ == (WorkerModel {
                exit: true,
                updates: old(self)@.updates.push(WaylandUpdate::Finished),
                history: old(self)@.history.push(WaylandUpdate::Finished),
                ..old(self)@
            }),
    {
        proof {
            lemma_emit_preserves_wf(old(self)@, WaylandUpdate::Finished);
        }
        self.push_update(WaylandUpdate::Finished);
        self.exit = true;
    }

    /// Drain the updates owed to the UI, in emission order.
    pub fn take_updates(&mut self) -> (r: Vec<WaylandUpdate>)
        requires
            old(self)@.wf(),
        ensures
            final(self)@.wf(),
            r@ == old(self)@.updates,
            final(self)@ == (WorkerModel { updates: Seq::empty(), ..old(self)@ }),
    {
        let mut v: Vec<WaylandUpdate> = Vec::new();
        core::mem::swap(&mut v, &mut self.updates);
        proof {
            assert(self@.updates =~= Seq::<WaylandUpdate>::empty());
        }
        v
    }

    /// Drain the protocol actions owed to the event loop, in decision order.
    pub fn take_actions(&mut self) -> (r: Vec<Action>)
        requires
            old(self)@.wf(),
        ensures
            final(self)@.wf(),
            r@ == old(self)@.actions,
            final(self)@ == (WorkerModel { actions: Seq::empty(), ..old(self)@ }),
    {
        let mut v: Vec<Action> = Vec::new();
        core::mem::swap(&mut v, &mut self.actions);
        proof {
            assert(self@.actions =~= Seq::<Action>::empty());
        }
        v
    }

    /// The compositor re-enumerated the workspaces: replace the list whole.
    pub fn set_workspaces(&mut self, groups: Vec<WorkspaceGroup>)
        requires
            old(self)@.wf(),
        ensures
            final(self)@.wf(),
            final(self)@ == (WorkerModel {
                workspaces: groups@.map_values(|g: WorkspaceGroup| g.workspaces@),
                ..old(self)@
            }),
    {
        self.workspace_groups = groups;
    }
}

impl AppData {
    /// The compositor offered one buffer format for this window's session:
    /// it joins the accumulator while the session negotiates, and is stale
    /// otherwise. Unknown windows and stopped sessions ignore it.
    pub fn on_format_offer(&mut self, toplevel: WindowHandle, offer: FormatOffer)
        requires
            old(self)@.wf(),
        ensures
            final(self)@.wf(),
            match find_source(old(self)@.registry.captures, toplevel) {
                None => final(self)@ == old(self)@,
                Some(i) => match old(self)@.registry.captures[i].session {
                    None => final(self)@ == old(self)@,
                    Some(s) => final(self)@ == (WorkerModel {
                        registry: RegistryModel {
                            captures: old(self)@.registry.captures.update(
                                i,
                                CaptureModel {
                                    source: toplevel,
                                    session: Some(session_after_offer(s, offer)),
                                },
                            ),
                            ..old(self)@.registry
                        },
                        ..old(self)@
                    }),
                },
            },
    {
        let ghost pre = self@;
        let idx = match self.registry.find(toplevel) {
            Some(i) => i,
            None => {
                return;
            },
        };
        proof {
            lemma_find_source_props(pre.registry.captures, toplevel);
        }
        let cap = &mut self.registry.captures[idx];
        match &mut cap.session {
            Some(s) => {
                s.on_format_offer(offer);
            },
            None => {},
        }
        proof {
            match pre.registry.captures[idx as int].session {
                Some(s) => {
                    let c2 = CaptureModel {
                        source: toplevel,
                        session: Some(session_after_offer(s, offer)),
                    };
                    assert(self@.registry.captures =~= pre.registry.captures.update(
                        idx as int,
                        c2,
                    ));
                    lemma_wf_after_session_update(pre, idx as int, self@);
                },
                None => {
                    assert(self@.registry.captures =~= pre.registry.captures);
                    assert(self@ == pre);
                },
            }
        }
    }
}

/// After one session's state is replaced at `i` — its source, its presence,
/// and its held buffer all unchanged, the pool untouched — the worker
/// invariant still holds.
proof fn lemma_wf_after_session_update(pre: WorkerModel, i: int, post: WorkerModel)
    requires
        pre.wf(),
        0 <= i < pre.registry.captures.len(),
        post.registry.captures.len() == pre.registry.captures.len(),
        forall|j: int| 0 <= j < pre.registry.captures.len() && j != i
            ==> post.registry.captures[j] == pre.registry.captures[j],
        post.registry.captures[i].source == pre.registry.captures[i].source,
        post.registry.captures[i].session is Some <==> pre.registry.captures[i].session is Some,
        post.registry.captures[i].held_buffer() == pre.registry.captures[i].held_buffer(),
        post.registry.filter == pre.registry.filter,
        post.pool == pre.pool,
        post.history == pre.history,
    ensures
        post.wf(),
{
    assert forall|w: WindowHandle| post.registry.is_open(w) <==> open_in(post.history, w) by {
        if post.registry.is_open(w) {
            let j = choose|j: int|
                0 <= j < post.registry.captures.len() && post.registry.captures[j].source == w;
            assert(pre.registry.captures[j].source == w);
        }
        if open_in(post.history, w) {
            let j = choose|j: int|
                0 <= j < pre.registry.captures.len() && pre.registry.captures[j].source == w;
            assert(post.registry.captures[j].source == w);
        }
    }
    assert forall|j: int, k: int|
        0 <= j < post.registry.captures.len() && 0 <= k < post.registry.captures.len() && j != k
        implies crate::registry::distinct_buffers(
        post.registry.captures[j],
        post.registry.captures[k],
    ) by {
        assert(crate::registry::distinct_buffers(
            pre.registry.captures[j],
            pre.registry.captures[k],
        ));
    }
}

/// After one session's state and the pool are replaced at `i` — every other
/// capture untouched, sources and session presence preserved, the new
/// buffer sound in the new pool and unclaimed by the others, the others
/// still sound — the worker invariant holds again.
proof fn lemma_wf_after_buffer_step(pre: WorkerModel, i: int, post: WorkerModel)
    requires
        pre.wf(),
        0 <= i < pre.registry.captures.len(),
        post.registry.captures.len() == pre.registry.captures.len(),
        forall|j: int| 0 <= j < pre.registry.captures.len() && j != i
            ==> post.registry.captures[j] == pre.registry.captures[j],
        post.registry.captures[i].source == pre.registry.captures[i].source,
        post.registry.captures[i].session is Some <==> pre.registry.captures[i].session is Some,
        post.registry.filter == pre.registry.filter,
        post.history == pre.history,
        post.pool.wf(),
        match post.registry.captures[i].held_buffer() {
            Some(b) => b.id < post.pool.next_id && !post.pool.free_has_id(b.id) && (forall|j: int|
                0 <= j < pre.registry.captures.len() && j != i
                    ==> !crate::registry::holds_id(pre.registry.captures[j], b.id)),
            None => true,
        },
        forall|j: int| 0 <= j < pre.registry.captures.len() && j != i
            ==> pre.registry.captures[j].buffer_ok(post.pool),
    ensures
        post.wf(),
{
    assert forall|w: WindowHandle| post.registry.is_open(w) <==> open_in(post.history, w) by {
        if post.registry.is_open(w) {
            let j = choose|j: int|
                0 <= j < post.registry.captures.len() && post.registry.captures[j].source == w;
            assert(pre.registry.captures[j].source == w);
        }
        if open_in(post.history, w) {
            let j = choose|j: int|
                0 <= j < pre.registry.captures.len() && pre.registry.captures[j].source == w;
            assert(post.registry.captures[j].source == w);
        }
    }
    assert forall|j: int, k: int|
        0 <= j < post.registry.captures.len() && 0 <= k < post.registry.captures.len() && j != k
        implies crate::registry::distinct_buffers(
        post.registry.captures[j],
        post.registry.captures[k],
    ) by {
        if j != i && k != i {
            assert(crate::registry::distinct_buffers(
                pre.registry.captures[j],
                pre.registry.captures[k],
            ));
        }
    }
}

impl AppData {
    /// The compositor signalled that this session's offer set is complete:
    /// settle on an offer, draw its buffer from the pool, and submit the
    /// first frame request. No satisfiable offer, or an allocation failure,
    /// ends the session; it stays down until an explicit stop and start.
    pub fn on_offers_done(&mut self, toplevel: WindowHandle)
        requires
            old(self)@.wf(),
        ensures
            final(self)@.wf(),
            match find_source(old(self)@.registry.captures, toplevel) {
                None => final(self)@ == old(self)@,
                Some(i) => match old(self)@.registry.captures[i].session {
                    None => final(self)@ == old(self)@,
                    Some(s) => ({
                        let (s2, p2) = session_after_offers_done(s, old(self)@.pool);
                        let s3 = session_after_arm(s2);
                        final(self)@ == (WorkerModel {
                            registry: RegistryModel {
                                captures: old(self)@.registry.captures.update(
                                    i,
                                    CaptureModel { source: toplevel, session: Some(s3) },
                                ),
                                ..old(self)@.registry
                            },
                            pool: p2,
                            ..old(self)@
                        })
                    }),
                },
            },
    {
        let ghost pre = self@;
        let idx = match self.registry.find(toplevel) {
            Some(i) => i,
            None => {
                return;
            },
        };
        proof {
            lemma_find_source_props(pre.registry.captures, toplevel);
        }
        let cap = &mut self.registry.captures[idx];
        match &mut cap.session {
            Some(s) => {
                s.on_offers_done(&mut self.pool);
                s.arm();
            },
            None => {},
        }
        proof {
            match pre.registry.captures[idx as int].session {
                Some(s) => {
                    let (s2, p2) = session_after_offers_done(s, pre.pool);
                    let s3 = session_after_arm(s2);
                    let c2 = CaptureModel { source: toplevel, session: Some(s3) };
                    assert(self@.registry.captures =~= pre.registry.captures.update(
                        idx as int,
                        c2,
                    ));
                    lemma_session_buffer_step_sound(pre, idx as int, self@);
                    lemma_wf_after_buffer_step(pre, idx as int, self@);
                },
                None => {
                    assert(self@.registry.captures =~= pre.registry.captures);
                    assert(self@ == pre);
                },
            }
        }
    }
}

/// The premises of [`lemma_wf_after_buffer_step`] hold after an offer
/// settlement, a frame re-arm, a frame failure or a resize at `i`: the
/// session either kept its buffer, released it, or drew a fresh one from
/// the pool, and in every case the others' buffers stay out of the pool and
/// unaliased.
proof fn lemma_session_buffer_step_sound(pre: WorkerModel, i: int, post: WorkerModel)
    requires
        pre.wf(),
        0 <= i < pre.registry.captures.len(),
        pre.registry.captures[i].session matches Some(s) && ({
            let (s2, p2) = session_after_offers_done(s, pre.pool);
            post.pool == p2 && post.registry.captures[i].session == Some(session_after_arm(s2))
        }),
        post.registry.captures.len() == pre.registry.captures.len(),
        forall|j: int| 0 <= j < pre.registry.captures.len() && j != i
            ==> post.registry.captures[j] == pre.registry.captures[j],
    ensures
        post.pool.wf(),
        match post.registry.captures[i].held_buffer() {
            Some(b) => b.id < post.pool.next_id && !post.pool.free_has_id(b.id) && (forall|j: int|
                0 <= j < pre.registry.captures.len() && j != i
                    ==> !crate::registry::holds_id(pre.registry.captures[j], b.id)),
            None => true,
        },
        forall|j: int| 0 <= j < pre.registry.captures.len() && j != i
            ==> pre.registry.captures[j].buffer_ok(post.pool),
{
    let s = pre.registry.captures[i].session->0;
    let (s2, p2) = session_after_offers_done(s, pre.pool);
    match s {
        SessionModel::Negotiating(offers) => {
            match crate::session::choose_offer(offers, pre.pool.gpu_available) {
                None => {},
                Some(o) => {
                    let (r, pp) = crate::buffer::spec_acquire(pre.pool, o.kind, o.width, o.height);
                    crate::buffer::lemma_spec_acquire_sound(pre.pool, o.kind, o.width, o.height);
                    assert forall|j: int|
                        0 <= j < pre.registry.captures.len() && j != i
                        implies pre.registry.captures[j].buffer_ok(post.pool) by {
                        assert(pre.registry.captures[j].buffer_ok(pre.pool));
                        match pre.registry.captures[j].held_buffer() {
                            Some(ob) => {
                                lemma_acquire_preserves_absent(
                                    pre.pool,
                                    o.kind,
                                    o.width,
                                    o.height,
                                    ob.id,
                                );
                            },
                            None => {},
                        }
                    }
                    match r {
                        Some(b) => {
                            assert forall|j: int|
                                0 <= j < pre.registry.captures.len() && j != i
                                implies !crate::registry::holds_id(
                                pre.registry.captures[j],
                                b.id,
                            ) by {
                                match pre.registry.captures[j].held_buffer() {
                                    Some(ob) => {
                                        lemma_acquire_preserves_absent(
                                            pre.pool,
                                            o.kind,
                                            o.width,
                                            o.height,
                                            ob.id,
                                        );
                                    },
                                    None => {},
                                }
                            }
                        },
                        None => {},
                    }
                },
            }
        },
        _ => {
            assert(s2 == s && p2 == pre.pool);
            match s.held_buffer() {
                Some(b) => {
                    assert(pre.registry.captures[i].buffer_ok(pre.pool));
                    assert forall|j: int|
                        0 <= j < pre.registry.captures.len() && j != i
                        implies !crate::registry::holds_id(pre.registry.captures[j], b.id) by {
                        assert(crate::registry::distinct_buffers(
                            pre.registry.captures[j],
                            pre.registry.captures[i],
                        ));
                    }
                },
                None => {},
            }
        },
    }
}

impl AppData {
    /// The compositor delivered a frame into this session's outstanding
    /// buffer: the finished image goes out to the UI at once, and a fresh
    /// buffer of the same format re-arms the capture loop — or, when none
    /// can be had, the session ends. The image's dimensions are the
    /// session's negotiated dimensions, never a stale pair.
    pub fn on_frame_ready(&mut self, toplevel: WindowHandle)
        requires
            old(self)@.wf(),
        ensures
            final(self)@.wf(),
            match find_source(old(self)@.registry.captures, toplevel) {
                None => final(self)@ == old(self)@,
                Some(i) => match old(self)@.registry.captures[i].session {
                    None => final(self)@ == old(self)@,
                    Some(s) => ({
                        let (img, s2, p2) = session_after_frame(s, old(self)@.pool);
                        let s3 = session_after_arm(s2);
                        match img {
                            None => final(self)@ == old(self)@,
                            Some(image) => ({
                                let u = WaylandUpdate::ToplevelCapture(toplevel, image);
                                final(self)@ == (WorkerModel {
                                    registry: RegistryModel {
                                        captures: old(self)@.registry.captures.update(
                                            i,
                                            CaptureModel { source: toplevel, session: Some(s3) },
                                        ),
                                        ..old(self)@.registry
                                    },
                                    pool: p2,
                                    updates: old(self)@.updates.push(u),
                                    history: old(self)@.history.push(u),
                                    ..old(self)@
                                })
                            }),
                        }
                    }),
                },
            },
    {
        let ghost pre = self@;
        let idx = match self.registry.find(toplevel) {
            Some(i) => i,
            None => {
                return;
            },
        };
        proof {
            lemma_find_source_props(pre.registry.captures, toplevel);
        }
        let mut img_opt: Option<CaptureImage> = None;
        let cap = &mut self.registry.captures[idx];
        match &mut cap.session {
            Some(s) => {
                img_opt = s.on_frame_ready(&mut self.pool);
                if img_opt.is_some() {
                    s.arm();
                }
            },
            None => {},
        }
        proof {
            match pre.registry.captures[idx as int].session {
                Some(s) => {
                    let (img, s2, p2) = session_after_frame(s, pre.pool);
                    let s3 = session_after_arm(s2);
                    let c2 = CaptureModel { source: toplevel, session: Some(s3) };
                    if img is Some {
                        assert(self@.registry.captures =~= pre.registry.captures.update(
                            idx as int,
                            c2,
                        ));
                        lemma_frame_step_sound(pre, idx as int, self@);
                        lemma_wf_after_buffer_step(pre, idx as int, self@);
                    } else {
                        assert(self@.registry.captures =~= pre.registry.captures);
                        assert(self@ == pre);
                    }
                },
                None => {
                    assert(self@.registry.captures =~= pre.registry.captures);
                    assert(self@ == pre);
                },
            }
        }
        if let Some(img) = img_opt {
            proof {
                assert(self@.registry.captures[idx as int].source == toplevel);
                assert(self@.registry.is_open(toplevel));
                lemma_emit_preserves_wf(self@, WaylandUpdate::ToplevelCapture(toplevel, img));
            }
            self.push_update(WaylandUpdate::ToplevelCapture(toplevel, img));
        }
    }

    /// The compositor reported this session's frame failed (output
    /// occluded, session destroyed remotely): the session ends, its buffer
    /// goes back to the pool, and nothing is emitted — the silence itself is
    /// the failure signal; an explicit stop and start resumes capture.
    pub fn on_frame_failed(&mut self, toplevel: WindowHandle)
        requires
            old(self)@.wf(),
        ensures
            final(self)@.wf(),
            match find_source(old(self)@.registry.captures, toplevel) {
                None => final(self)@ == old(self)@,
                Some(i) => match old(self)@.registry.captures[i].session {
                    None => final(self)@ == old(self)@,
                    Some(s) => ({
                        let (s2, p2) = session_after_failure(s, old(self)@.pool);
                        final(self)@ == (WorkerModel {
                            registry: RegistryModel {
                                captures: old(self)@.registry.captures.update(
                                    i,
                                    CaptureModel { source: toplevel, session: Some(s2) },
                                ),
                                ..old(self)@.registry
                            },
                            pool: p2,
                            ..old(self)@
                        })
                    }),
                },
            },
    {
        let ghost pre = self@;
        let idx = match self.registry.find(toplevel) {
            Some(i) => i,
            None => {
                return;
            },
        };
        proof {
            lemma_find_source_props(pre.registry.captures, toplevel);
        }
        let cap = &mut self.registry.captures[idx];
        match &mut cap.session {
            Some(s) => {
                s.on_frame_failed(&mut self.pool);
            },
            None => {},
        }
        proof {
            match pre.registry.captures[idx as int].session {
                Some(s) => {
                    let (s2, p2) = session_after_failure(s, pre.pool);
                    let c2 = CaptureModel { source: toplevel, session: Some(s2) };
                    assert(self@.registry.captures =~= pre.registry.captures.update(
                        idx as int,
                        c2,
                    ));
                    lemma_release_step_sound(pre, idx as int, self@);
                    lemma_wf_after_buffer_step(pre, idx as int, self@);
                },
                None => {
                    assert(self@.registry.captures =~= pre.registry.captures);
                    assert(self@ == pre);
                },
            }
        }
    }

    /// The compositor signalled a resize for this window's session: the
    /// current buffer is discarded, never patched in place, and the session
    /// renegotiates from scratch for the new geometry. Any frame emitted
    /// after this carries dimensions from the renegotiated format.
    pub fn on_session_resized(&mut self, toplevel: WindowHandle)
        requires
            old(self)@.wf(),
        ensures
            final(self)@.wf(),
            match find_source(old(self)@.registry.captures, toplevel) {
                None => final(self)@ == old(self)@,
                Some(i) => match old(self)@.registry.captures[i].session {
                    None => final(self)@ == old(self)@,
                    Some(s) => ({
                        let (s2, p2) = session_after_resize(s, old(self)@.pool);
                        final(self)@ == (WorkerModel {
                            registry: RegistryModel {
                                captures: old(self)@.registry.captures.update(
                                    i,
                                    CaptureModel { source: toplevel, session: Some(s2) },
                                ),
                                ..old(self)@.registry
                            },
                            pool: p2,
                            ..old(self)@
                        })
                    }),
                },
            },
    {
        let ghost pre = self@;
        let idx = match self.registry.find(toplevel) {
            Some(i) => i,
            None => {
                return;
            },
        };
        proof {
            lemma_find_source_props(pre.registry.captures, toplevel);
        }
        let cap = &mut self.registry.captures[idx];
        match &mut cap.session {
            Some(s) => {
                s.on_resize(&mut self.pool);
            },
            None => {},
        }
        proof {
            match pre.registry.captures[idx as int].session {
                Some(s) => {
                    let (s2, p2) = session_after_resize(s, pre.pool);
                    let c2 = CaptureModel { source: toplevel, session: Some(s2) };
                    assert(self@.registry.captures =~= pre.registry.captures.update(
                        idx as int,
                        c2,
                    ));
                    lemma_release_step_sound(pre, idx as int, self@);
                    lemma_wf_after_buffer_step(pre, idx as int, self@);
                },
                None => {
                    assert(self@.registry.captures =~= pre.registry.captures);
                    assert(self@ == pre);
                },
            }
        }
    }

    /// The UI consumed a frame and its buffer came back: return it to the
    /// pool for reuse. The pool takes it only when it really minted the id,
    /// no session still owns it, and it is not already free; anything else
    /// is dropped and reported `false`.
    pub fn on_buffer_released(&mut self, b: Buffer) -> (accepted: bool)
        requires
            old(self)@.wf(),
        ensures
            final(self)@.wf(),
            accepted == (!crate::registry::some_session_holds(old(self)@.registry, b.id)
                && crate::buffer::spec_release(old(self)@.pool, b).0),
            accepted ==> final(self)@ == (WorkerModel {
                pool: crate::buffer::spec_release(old(self)@.pool, b).1,
                ..old(self)@
            }),
            !accepted ==> final(self)@ == old(self)@,
    {
        let ghost pre = self@;
        if self.registry.any_session_holds(b.id) {
            return false;
        }
        let accepted = self.pool.release(b);
        proof {
            if accepted {
                assert forall|j: int|
                    0 <= j < self@.registry.captures.len()
                    implies self@.registry.captures[j].buffer_ok(self@.pool) by {
                    assert(pre.registry.captures[j].buffer_ok(pre.pool));
                    assert(!crate::registry::holds_id(pre.registry.captures[j], b.id));
                    match pre.registry.captures[j].held_buffer() {
                        Some(ob) => {
                            lemma_release_preserves_absent(pre.pool, b, ob.id);
                        },
                        None => {},
                    }
                }
            }
        }
        accepted
    }
}

/// The premises of [`lemma_wf_after_buffer_step`] hold after a frame
/// delivery at `i`: the outgoing buffer leaves the session's ownership with
/// the image, and the replacement comes fresh off the pool.
proof fn lemma_frame_step_sound(pre: WorkerModel, i: int, post: WorkerModel)
    requires
        pre.wf(),
        0 <= i < pre.registry.captures.len(),
        pre.registry.captures[i].session matches Some(s) && s is Capturing && ({
            let (img, s2, p2) = session_after_frame(s, pre.pool);
            post.pool == p2 && post.registry.captures.len() == pre.registry.captures.len()
                && post.registry.captures[i].session == Some(session_after_arm(s2))
        }),
        forall|j: int| 0 <= j < pre.registry.captures.len() && j != i
            ==> post.registry.captures[j] == pre.registry.captures[j],
    ensures
        post.pool.wf(),
        match post.registry.captures[i].held_buffer() {
            Some(b) => b.id < post.pool.next_id && !post.pool.free_has_id(b.id) && (forall|j: int|
                0 <= j < pre.registry.captures.len() && j != i
                    ==> !crate::registry::holds_id(pre.registry.captures[j], b.id)),
            None => true,
        },
        forall|j: int| 0 <= j < pre.registry.captures.len() && j != i
            ==> pre.registry.captures[j].buffer_ok(post.pool),
{
    let s = pre.registry.captures[i].session->0;
    let (img, s2, p2) = session_after_frame(s, pre.pool);
    match s {
        SessionModel::Capturing(b) => {
            let (r, pp) = crate::buffer::spec_acquire(pre.pool, b.kind, b.width, b.height);
            crate::buffer::lemma_spec_acquire_sound(pre.pool, b.kind, b.width, b.height);
            assert forall|j: int|
                0 <= j < pre.registry.captures.len() && j != i
                implies pre.registry.captures[j].buffer_ok(post.pool) by {
                assert(pre.registry.captures[j].buffer_ok(pre.pool));
                match pre.registry.captures[j].held_buffer() {
                    Some(ob) => {
                        lemma_acquire_preserves_absent(pre.pool, b.kind, b.width, b.height, ob.id);
                    },
                    None => {},
                }
            }
            match r {
                Some(nb) => {
                    assert forall|j: int|
                        0 <= j < pre.registry.captures.len() && j != i
                        implies !crate::registry::holds_id(pre.registry.captures[j], nb.id) by {
                        match pre.registry.captures[j].held_buffer() {
                            Some(ob) => {
                                lemma_acquire_preserves_absent(
                                    pre.pool,
                                    b.kind,
                                    b.width,
                                    b.height,
                                    ob.id,
                                );
                            },
                            None => {},
                        }
                    }
                },
                None => {},
            }
        },
        _ => {},
    }
}

/// The premises of [`lemma_wf_after_buffer_step`] hold after a step that
/// only ends a session or sends it back to negotiation: any owned buffer is
/// released to the pool and nothing new is drawn from it.
proof fn lemma_release_step_sound(pre: WorkerModel, i: int, post: WorkerModel)
    requires
        pre.wf(),
        0 <= i < pre.registry.captures.len(),
        post.registry.captures.len() == pre.registry.captures.len(),
        post.registry.captures[i].held_buffer() is None,
        post.pool == (match pre.registry.captures[i].held_buffer() {
            Some(b) => crate::buffer::spec_release(pre.pool, b).1,
            None => pre.pool,
        }),
        forall|j: int| 0 <= j < pre.registry.captures.len() && j != i
            ==> post.registry.captures[j] == pre.registry.captures[j],
    ensures
        post.pool.wf(),
        match post.registry.captures[i].held_buffer() {
            Some(b) => b.id < post.pool.next_id && !post.pool.free_has_id(b.id) && (forall|j: int|
                0 <= j < pre.registry.captures.len() && j != i
                    ==> !crate::registry::holds_id(pre.registry.captures[j], b.id)),
            None => true,
        },
        forall|j: int| 0 <= j < pre.registry.captures.len() && j != i
            ==> pre.registry.captures[j].buffer_ok(post.pool),
{
    match pre.registry.captures[i].held_buffer() {
        Some(b) => {
            crate::buffer::lemma_spec_release_wf(pre.pool, b);
            assert forall|j: int|
                0 <= j < pre.registry.captures.len() && j != i
                implies pre.registry.captures[j].buffer_ok(post.pool) by {
                assert(pre.registry.captures[j].buffer_ok(pre.pool));
                match pre.registry.captures[j].held_buffer() {
                    Some(ob) => {
                        assert(crate::registry::distinct_buffers(
                            pre.registry.captures[j],
                            pre.registry.captures[i],
                        ));
                        lemma_release_preserves_absent(pre.pool, b, ob.id);
                    },
                    None => {},
                }
            }
        },
        None => {},
    }
}

/// Pushing a capture opens exactly its window, on top of what was open.
proof fn lemma_is_open_push(r: RegistryModel, c: CaptureModel, w: WindowHandle)
    ensures
        (RegistryModel { captures: r.captures.push(c), ..r }).is_open(w) == (r.is_open(w)
            || c.source == w),
{
    let r2 = RegistryModel { captures: r.captures.push(c), ..r };
    if r.is_open(w) {
        let i = choose|i: int| 0 <= i < r.captures.len() && r.captures[i].source == w;
        assert(r2.captures[i] == r.captures[i]);
    }
    if c.source == w {
        assert(r2.captures[r.captures.len() as int] == c);
    }
    if r2.is_open(w) {
        let i = choose|i: int| 0 <= i < r2.captures.len() && r2.captures[i].source == w;
        if i < r.captures.len() {
            assert(r.captures[i].source == w);
        } else {
            assert(c.source == w);
        }
    }
}

/// Removing a capture closes exactly its window, when each window has one
/// capture.
proof fn lemma_is_open_remove(r: RegistryModel, i: int, w: WindowHandle)
    requires
        r.distinct_sources(),
        0 <= i < r.captures.len(),
    ensures
        (RegistryModel { captures: r.captures.remove(i), ..r }).is_open(w) == (r.is_open(w)
            && r.captures[i].source != w),
{
    let r2 = RegistryModel { captures: r.captures.remove(i), ..r };
    if r2.is_open(w) {
        let j = choose|j: int| 0 <= j < r2.captures.len() && r2.captures[j].source == w;
        let orig = if j < i {
            j
        } else {
            j + 1
        };
        assert(r2.captures[j] == r.captures[orig]);
        assert(r.captures[orig].source == w);
        assert(r.captures[i].source != w);
    }
    if r.is_open(w) && r.captures[i].source != w {
        let j = choose|j: int| 0 <= j < r.captures.len() && r.captures[j].source == w;
        let moved = if j < i {
            j
        } else {
            j - 1
        };
        assert(r2.captures[moved] == r.captures[j]);
    }
}

/// Buffers are never aliased: whatever the pool hands out next is no buffer
/// an outstanding capture still owns.
pub proof fn lemma_acquire_never_aliases(
    m: WorkerModel,
    kind: crate::buffer::BufferKind,
    width: u32,
    height: u32,
)
    requires
        m.wf(),
    ensures
        crate::buffer::spec_acquire(m.pool, kind, width, height).0 matches Some(b)
            ==> !crate::registry::some_session_holds(m.registry, b.id),
{
    let (r, _) = crate::buffer::spec_acquire(m.pool, kind, width, height);
    crate::buffer::lemma_spec_acquire_in_free_or_fresh(m.pool, kind, width, height);
    match r {
        Some(b) => {
            if crate::registry::some_session_holds(m.registry, b.id) {
                let j = choose|j: int|
                    0 <= j < m.registry.captures.len() && crate::registry::holds_id(
                        m.registry.captures[j],
                        b.id,
                    );
                assert(m.registry.captures[j].buffer_ok(m.pool));
            }
        },
        None => {},
    }
}

/// Emitting an update that satisfies [`WorkerModel::emit_ok`] keeps the
/// worker invariant.
proof fn lemma_emit_preserves_wf(m: WorkerModel, u: WaylandUpdate)
    requires
        m.wf(),
        m.emit_ok(u),
    ensures
        (WorkerModel { updates: m.updates.push(u), history: m.history.push(u), ..m }).wf(),
{
    let h2 = m.history.push(u);
    assert forall|w: WindowHandle| m.registry.is_open(w) <==> open_in(h2, w) by {
        lemma_open_in_push(m.history, u, w);
    }
    assert forall|w: WindowHandle| #[trigger] is_capture(u, w) implies open_in(m.history, w) by {}
    lemma_frames_ordered_push(m.history, u);
}

} // verus!
