//! Ordering of the update stream a worker emits.
//!
//! The worker appends every update it ever emits to one history, in emission
//! order, and the event loop drains them to the UI in that same order. The
//! guarantee proved here: a window's frames are only ever emitted while the
//! window stands announced open — between its add and its remove — so, for a
//! single window, its add precedes every frame, and a frame never follows
//! its remove unless a new add came first.

use vstd::prelude::*;

use crate::bridge::{ToplevelUpdate, WaylandUpdate};
use crate::window::WindowHandle;

verus! {

/// Whether this update announces window `w` open.
pub open spec fn is_add(u: WaylandUpdate, w: WindowHandle) -> bool {
    match u {
        WaylandUpdate::Toplevel(ToplevelUpdate::Add(w2, _)) => w2 == w,
        _ => false,
    }
}

/// Whether this update announces window `w` closed.
pub open spec fn is_remove(u: WaylandUpdate, w: WindowHandle) -> bool {
    match u {
        WaylandUpdate::Toplevel(ToplevelUpdate::Remove(w2)) => w2 == w,
        _ => false,
    }
}

/// Whether this update carries a captured frame for window `w`.
pub open spec fn is_capture(u: WaylandUpdate, w: WindowHandle) -> bool {
    match u {
        WaylandUpdate::ToplevelCapture(w2, _) => w2 == w,
        _ => false,
    }
}

/// Whether, after the whole stream `h`, window `w` stands announced open:
/// its last add or remove decides.
pub open spec fn open_in(h: Seq<WaylandUpdate>, w: WindowHandle) -> bool
    decreases h.len(),
{
    if h.len() == 0 {
        false
    } else if is_add(h.last(), w) {
        true
    } else if is_remove(h.last(), w) {
        false
    } else {
        open_in(h.drop_last(), w)
    }
}

/// Every frame in the stream falls while its window stands open.
pub open spec fn frames_ordered(h: Seq<WaylandUpdate>) -> bool {
    forall|j: int, w: WindowHandle|
        0 <= j < h.len() && #[trigger] is_capture(h[j], w) ==> open_in(h.take(j), w)
}

/// Appending one update changes which windows stand open in the obvious way.
pub proof fn lemma_open_in_push(h: Seq<WaylandUpdate>, u: WaylandUpdate, w: WindowHandle)
    ensures
        open_in(h.push(u), w) == (if is_add(u, w) {
            true
        } else if is_remove(u, w) {
            false
        } else {
            open_in(h, w)
        }),
{
    assert(h.push(u).last() == u);
    assert(h.push(u).drop_last() =~= h);
}

/// Appending an update keeps the stream ordered, provided a frame is only
/// appended for a window that stands open.
pub proof fn lemma_frames_ordered_push(h: Seq<WaylandUpdate>, u: WaylandUpdate)
    requires
        frames_ordered(h),
        forall|w: WindowHandle| #[trigger] is_capture(u, w) ==> open_in(h, w),
    ensures
        frames_ordered(h.push(u)),
{
    let h2 = h.push(u);
    assert forall|j: int, w: WindowHandle|
        0 <= j < h2.len() && #[trigger] is_capture(h2[j], w) implies open_in(h2.take(j), w) by {
        if j < h.len() {
            assert(h2[j] == h[j]);
            assert(is_capture(h[j], w));
            assert(h2.take(j) =~= h.take(j));
        } else {
            assert(h2[j] == u);
            assert(h2.take(j) =~= h);
        }
    }
}

/// A window that stands open was announced: an add sits in the stream with
/// no remove after it.
pub proof fn lemma_open_has_add(h: Seq<WaylandUpdate>, w: WindowHandle)
    requires
        open_in(h, w),
    ensures
        exists|i: int|
            0 <= i < h.len() && #[trigger] is_add(h[i], w) && (forall|k: int|
                i < k < h.len() ==> !is_remove(h[k], w)),
    decreases h.len(),
{
    let last = h.len() - 1;
    if is_add(h[last], w) {
        assert(is_add(h[last], w) && (forall|k: int| last < k < h.len() ==> !is_remove(h[k], w)));
    } else {
        lemma_open_has_add(h.drop_last(), w);
        let i = choose|i: int|
            0 <= i < h.drop_last().len() && #[trigger] is_add(h.drop_last()[i], w) && (forall|k: int|
                i < k < h.drop_last().len() ==> !is_remove(h.drop_last()[k], w));
        assert(h.drop_last()[i] == h[i]);
        assert forall|k: int| i < k < h.len() implies !is_remove(h[k], w) by {
            if k < h.len() - 1 {
                assert(h.drop_last()[k] == h[k]);
                assert(!is_remove(h.drop_last()[k], w));
            }
        }
        assert(is_add(h[i], w));
    }
}

/// For a single window, its add precedes any of its frames: an ordered
/// stream carrying a frame for `w` at `j` carries an add for `w` before `j`,
/// with no remove for `w` in between.
pub proof fn lemma_add_precedes_capture(h: Seq<WaylandUpdate>, w: WindowHandle, j: int)
    requires
        frames_ordered(h),
        0 <= j < h.len(),
        is_capture(h[j], w),
    ensures
        exists|i: int|
            0 <= i < j && #[trigger] is_add(h[i], w) && (forall|k: int|
                i < k < j ==> !is_remove(h[k], w)),
{
    assert(open_in(h.take(j), w));
    lemma_open_has_add(h.take(j), w);
    let i = choose|i: int|
        0 <= i < h.take(j).len() && #[trigger] is_add(h.take(j)[i], w) && (forall|k: int|
            i < k < h.take(j).len() ==> !is_remove(h.take(j)[k], w));
    assert(h.take(j)[i] == h[i]);
    assert forall|k: int| i < k < j implies !is_remove(h[k], w) by {
        assert(h.take(j)[k] == h[k]);
        assert(!is_remove(h.take(j)[k], w));
    }
    assert(is_add(h[i], w));
}

/// For a single window, a frame never follows its remove unless the window
/// was announced open again in between.
pub proof fn lemma_no_capture_after_remove(h: Seq<WaylandUpdate>, w: WindowHandle, k: int, j: int)
    requires
        frames_ordered(h),
        0 <= k < j < h.len(),
        is_remove(h[k], w),
        is_capture(h[j], w),
    ensures
        exists|i: int| k < i < j && #[trigger] is_add(h[i], w),
{
    lemma_add_precedes_capture(h, w, j);
    let i = choose|i: int|
        0 <= i < j && #[trigger] is_add(h[i], w) && (forall|k2: int|
            i < k2 < j ==> !is_remove(h[k2], w));
    if i <= k {
        assert(!is_remove(h[k], w) || i == k);
        assert(false);
    }
    assert(k < i < j && is_add(h[i], w));
}

} // verus!
