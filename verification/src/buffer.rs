//! Pixel buffers and the pool that allocates and recycles them.

use vstd::prelude::*;

verus! {

/// The kind of memory a pixel buffer lives in: portable shared memory, or
/// GPU-importable memory, which is preferred when the pool can import it.
#[derive(Clone, Copy, Debug, PartialEq, Eq, Structural)]
pub enum BufferKind {
    Shm,
    Gpu,
}

/// One buffer format the compositor offers for a capture session:
/// a memory kind together with the frame dimensions.
#[derive(Clone, Copy, Debug, PartialEq, Eq, Structural)]
pub struct FormatOffer {
    pub kind: BufferKind,
    pub width: u32,
    pub height: u32,
}

/// A block of pixel memory, identified by an id the pool never hands to two
/// owners at once, sized and formatted per negotiation.
#[derive(Clone, Copy, Debug, PartialEq, Eq, Structural)]
pub struct Buffer {
    pub id: u64,
    pub kind: BufferKind,
    pub width: u32,
    pub height: u32,
}

/// An immutable, ready-to-display frame: the terminal output of one capture
/// cycle. The buffer inside is not written to again after the frame is made.
#[derive(Clone, Copy, Debug, PartialEq, Eq, Structural)]
pub struct CaptureImage {
    pub width: u32,
    pub height: u32,
    pub buffer: Buffer,
}

/// Allocates and recycles pixel buffers.
///
/// Released buffers are kept on a free list and handed out again by a later
/// `acquire` with matching geometry, so a steady-state capture loop does not
/// reallocate. The pool mints at most `limit` distinct buffers over its life;
/// when the budget is spent and no free buffer matches, `acquire` reports an
/// allocation failure.
#[derive(Clone, Debug)]
pub struct BufferPool {
    free: Vec<Buffer>,
    next_id: u64,
    limit: u64,
    gpu_available: bool,
}

/// The mathematical state of a [`BufferPool`].
pub ghost struct PoolModel {
    pub free: Seq<Buffer>,
    pub next_id: u64,
    pub limit: u64,
    pub gpu_available: bool,
}

impl View for BufferPool {
    type V = PoolModel;

    closed spec fn view(&self) -> PoolModel {
        PoolModel {
            free: self.free@,
            next_id: self.next_id,
            limit: self.limit,
            gpu_available: self.gpu_available,
        }
    }
}

/// First index of a free buffer matching the requested kind and geometry.
pub open spec fn find_match(free: Seq<Buffer>, kind: BufferKind, width: u32, height: u32) -> Option<int>
    decreases free.len(),
{
    if free.len() == 0 {
        None
    } else if free[0].kind == kind && free[0].width == width && free[0].height == height {
        Some(0)
    } else {
        match find_match(free.drop_first(), kind, width, height) {
            Some(i) => Some(i + 1),
            None => None,
        }
    }
}

impl PoolModel {
    /// Whether some free buffer carries this id.
    pub open spec fn free_has_id(self, id: u64) -> bool {
        exists|i: int| 0 <= i < self.free.len() && self.free[i].id == id
    }

    /// Pool invariant: free buffers carry distinct ids, every id ever minted
    /// is below `next_id`, and the mint counter never passes the budget.
    pub open spec fn wf(self) -> bool {
        &&& forall|i: int, j: int|
            0 <= i < self.free.len() && 0 <= j < self.free.len() && i != j
                ==> self.free[i].id != self.free[j].id
        &&& forall|i: int| 0 <= i < self.free.len() ==> self.free[i].id < self.next_id
        &&& self.next_id <= self.limit
    }

    /// Whether the pool can satisfy buffers of this kind at all: shared
    /// memory always, GPU-importable memory only when a device is available.
    pub open spec fn can_satisfy(self, kind: BufferKind) -> bool {
        kind == BufferKind::Shm || self.gpu_available
    }
}

/// What `BufferPool::acquire` returns and leaves behind: the first matching
/// free buffer when one exists, else a freshly minted one while the budget
/// lasts, else an allocation failure that changes nothing.
pub open spec fn spec_acquire(
    p: PoolModel,
    kind: BufferKind,
    width: u32,
    height: u32,
) -> (Option<Buffer>, PoolModel) {
    if !p.can_satisfy(kind) {
        (None, p)
    } else {
        match find_match(p.free, kind, width, height) {
            Some(i) => (Some(p.free[i]), PoolModel { free: p.free.remove(i), ..p }),
            None => {
                if p.next_id < p.limit {
                    (
                        Some(Buffer { id: p.next_id, kind, width, height }),
                        PoolModel { next_id: (p.next_id + 1) as u64, ..p },
                    )
                } else {
                    (None, p)
                }
            },
        }
    }
}

/// What `BufferPool::release` leaves behind: the buffer joins the free list
/// exactly when its id was minted here and is not already free.
pub open spec fn spec_release(p: PoolModel, b: Buffer) -> (bool, PoolModel) {
    if b.id < p.next_id && !p.free_has_id(b.id) {
        (true, PoolModel { free: p.free.push(b), ..p })
    } else {
        (false, p)
    }
}

impl BufferPool {
    /// An empty pool with a mint budget of `limit` distinct buffers.
    pub fn new(limit: u64, gpu_available: bool) -> (pool: Self)
        ensures
            pool@.wf(),
            pool@ == (PoolModel { free: Seq::<Buffer>::empty(), next_id: 0, limit, gpu_available }),
    {
        let pool = BufferPool { free: Vec::new(), next_id: 0, limit, gpu_available };
        proof {
            assert(pool@.free =~= Seq::<Buffer>::empty());
        }
        pool
    }

    pub fn can_satisfy(&self, kind: BufferKind) -> (r: bool)
        ensures
            r == self@.can_satisfy(kind),
    {
        match kind {
            BufferKind::Shm => true,
            BufferKind::Gpu => self.gpu_available,
        }
    }

    /// Hand out a buffer of the requested kind and geometry, per
    /// [`spec_acquire`]. The buffer returned is on nobody's free list, so it
    /// is never aliased with a buffer some capture still owns.
    #[verifier::loop_isolation(false)]
    pub fn acquire(&mut self, kind: BufferKind, width: u32, height: u32) -> (r: Option<Buffer>)
        requires
            old(self)@.wf(),
        ensures
            final(self)@.wf(),
            (r, final(self)@) == spec_acquire(old(self)@, kind, width, height),
            r matches Some(b) ==> b.kind == kind && b.width == width && b.height == height
                && b.id < final(self)@.next_id && !final(self)@.free_has_id(b.id),
    {
        if !self.can_satisfy(kind) {
            return None;
        }
        let mut i: usize = 0;
        while i < self.free.len()
            invariant
                i <= self.free@.len(),
                self.free@ == old(self).free@,
                self.next_id == old(self).next_id,
                self.limit == old(self).limit,
                self.gpu_available == old(self).gpu_available,
                forall|j: int| 0 <= j < i
                    ==> !(self.free@[j].kind == kind && self.free@[j].width == width
                        && self.free@[j].height == height),
            decreases self.free@.len() - i,
        {
            let b = self.free[i];
            if b.kind == kind && b.width == width && b.height == height {
                proof {
                    lemma_find_match_first(self.free@, kind, width, height, i as int);
                }
                let out = self.free.remove(i);
                return Some(out);
            }
            i += 1;
        }
        proof {
            lemma_find_match_none(self.free@, kind, width, height);
        }
        if self.next_id < self.limit {
            let b = Buffer { id: self.next_id, kind, width, height };
            self.next_id = self.next_id + 1;
            Some(b)
        } else {
            None
        }
    }

    /// Take a buffer back for reuse, per [`spec_release`]. The pool accepts
    /// it only when the id was minted here and is not already free, so the
    /// free list never holds the same buffer twice; otherwise the buffer is
    /// dropped and `false` comes back.
    #[verifier::loop_isolation(false)]
    pub fn release(&mut self, b: Buffer) -> (accepted: bool)
        requires
            old(self)@.wf(),
        ensures
            final(self)@.wf(),
            (accepted, final(self)@) == spec_release(old(self)@, b),
    {
        if b.id >= self.next_id {
            return false;
        }
        let mut i: usize = 0;
        while i < self.free.len()
            invariant
                i <= self.free@.len(),
                self.free@ == old(self).free@,
                self.next_id == old(self).next_id,
                self.limit == old(self).limit,
                self.gpu_available == old(self).gpu_available,
                forall|j: int| 0 <= j < i ==> self.free@[j].id != b.id,
            decreases self.free@.len() - i,
        {
            if self.free[i].id == b.id {
                return false;
            }
            i += 1;
        }
        self.free.push(b);
        true
    }
}

/// `spec_acquire` keeps the pool well formed, never shrinks the id space,
/// and hands out a buffer of the requested shape that is off the free list.
pub proof fn lemma_spec_acquire_sound(p: PoolModel, kind: BufferKind, width: u32, height: u32)
    requires
        p.wf(),
    ensures
        ({
            let (r, p2) = spec_acquire(p, kind, width, height);
            &&& p2.wf()
            &&& p2.limit == p.limit
            &&& p2.gpu_available == p.gpu_available
            &&& p.next_id <= p2.next_id
            &&& (r matches Some(b) ==> b.kind == kind && b.width == width && b.height == height
                && b.id < p2.next_id && !p2.free_has_id(b.id))
        }),
{
    let (r, p2) = spec_acquire(p, kind, width, height);
    if p.can_satisfy(kind) {
        match find_match(p.free, kind, width, height) {
            Some(i) => {
                lemma_find_match_in_range(p.free, kind, width, height);
                lemma_find_match_is_match(p.free, kind, width, height);
                let b = p.free[i];
                assert forall|j: int, k: int|
                    0 <= j < p2.free.len() && 0 <= k < p2.free.len() && j != k
                    implies p2.free[j].id != p2.free[k].id by {
                    let oj = if j < i {
                        j
                    } else {
                        j + 1
                    };
                    let ok = if k < i {
                        k
                    } else {
                        k + 1
                    };
                    assert(p2.free[j] == p.free[oj]);
                    assert(p2.free[k] == p.free[ok]);
                }
                assert forall|j: int| 0 <= j < p2.free.len() implies p2.free[j].id
                    < p2.next_id by {
                    let oj = if j < i {
                        j
                    } else {
                        j + 1
                    };
                    assert(p2.free[j] == p.free[oj]);
                }
                assert forall|j: int| 0 <= j < p2.free.len() implies p2.free[j].id != b.id by {
                    let oj = if j < i {
                        j
                    } else {
                        j + 1
                    };
                    assert(p2.free[j] == p.free[oj]);
                }
            },
            None => {},
        }
    }
}

/// The buffer `find_match` points at really matches.
proof fn lemma_find_match_is_match(free: Seq<Buffer>, kind: BufferKind, width: u32, height: u32)
    ensures
        find_match(free, kind, width, height) matches Some(i) ==> 0 <= i < free.len()
            && free[i].kind == kind && free[i].width == width && free[i].height == height,
    decreases free.len(),
{
    if free.len() == 0 {
    } else {
        lemma_find_match_is_match(free.drop_first(), kind, width, height);
    }
}

/// `spec_release` keeps the pool well formed and its id space unchanged.
pub proof fn lemma_spec_release_wf(p: PoolModel, b: Buffer)
    requires
        p.wf(),
    ensures
        ({
            let p2 = spec_release(p, b).1;
            &&& p2.wf()
            &&& p2.next_id == p.next_id
            &&& p2.limit == p.limit
            &&& p2.gpu_available == p.gpu_available
        }),
{
    let p2 = spec_release(p, b).1;
    if b.id < p.next_id && !p.free_has_id(b.id) {
        assert forall|j: int, k: int|
            0 <= j < p2.free.len() && 0 <= k < p2.free.len() && j != k implies p2.free[j].id
            != p2.free[k].id by {
            if j < p.free.len() && k < p.free.len() {
            } else if j == p.free.len() {
                assert(p2.free[j] == b);
                assert(!p.free_has_id(b.id));
                assert(p2.free[k] == p.free[k]);
            } else {
                assert(p2.free[k] == b);
                assert(!p.free_has_id(b.id));
                assert(p2.free[j] == p.free[j]);
            }
        }
    }
}

/// What `spec_acquire` hands out was on the free list or carries the fresh
/// mint id.
pub proof fn lemma_spec_acquire_in_free_or_fresh(
    p: PoolModel,
    kind: BufferKind,
    width: u32,
    height: u32,
)
    ensures
        spec_acquire(p, kind, width, height).0 matches Some(b) ==> p.free_has_id(b.id) || b.id
            == p.next_id,
{
    if p.can_satisfy(kind) {
        match find_match(p.free, kind, width, height) {
            Some(i) => {
                lemma_find_match_in_range(p.free, kind, width, height);
                assert(p.free_has_id(p.free[i].id));
            },
            None => {},
        }
    }
}

/// A buffer id that is out of the pool stays out across an `acquire`, and
/// the acquired buffer never carries it: what a capture owns is never handed
/// out again.
pub proof fn lemma_acquire_preserves_absent(
    p: PoolModel,
    kind: BufferKind,
    width: u32,
    height: u32,
    id: u64,
)
    requires
        p.wf(),
        id < p.next_id,
        !p.free_has_id(id),
    ensures
        ({
            let (r, p2) = spec_acquire(p, kind, width, height);
            &&& id < p2.next_id
            &&& !p2.free_has_id(id)
            &&& (r matches Some(b) ==> b.id != id)
        }),
{
    let (r, p2) = spec_acquire(p, kind, width, height);
    if p.can_satisfy(kind) {
        match find_match(p.free, kind, width, height) {
            Some(i) => {
                lemma_find_match_in_range(p.free, kind, width, height);
                assert(p.free_has_id(p.free[i].id));
                assert forall|j: int| 0 <= j < p2.free.len() implies p2.free[j].id != id by {
                    let orig = if j < i {
                        j
                    } else {
                        j + 1
                    };
                    assert(p2.free[j] == p.free[orig]);
                    assert(!p.free_has_id(id));
                    assert(p.free[orig].id != id);
                }
            },
            None => {},
        }
    }
}

/// A first match found by `find_match` lies inside the sequence.
proof fn lemma_find_match_in_range(free: Seq<Buffer>, kind: BufferKind, width: u32, height: u32)
    ensures
        find_match(free, kind, width, height) matches Some(i) ==> 0 <= i < free.len(),
    decreases free.len(),
{
    if free.len() == 0 {
    } else {
        lemma_find_match_in_range(free.drop_first(), kind, width, height);
    }
}

/// A buffer id that is out of the pool stays out across a `release` of some
/// other buffer.
pub proof fn lemma_release_preserves_absent(p: PoolModel, b: Buffer, id: u64)
    requires
        !p.free_has_id(id),
        id != b.id,
    ensures
        !spec_release(p, b).1.free_has_id(id),
        spec_release(p, b).1.next_id == p.next_id,
{
    let p2 = spec_release(p, b).1;
    if b.id < p.next_id && !p.free_has_id(b.id) {
        assert forall|j: int| 0 <= j < p2.free.len() implies p2.free[j].id != id by {
            if j < p.free.len() {
                assert(p2.free[j] == p.free[j]);
                assert(!p.free_has_id(id));
            } else {
                assert(p2.free[j] == b);
            }
        }
    }
}

/// If the scan has passed `i` elements without a match and element `i`
/// matches, then `i` is the first match.
proof fn lemma_find_match_first(free: Seq<Buffer>, kind: BufferKind, width: u32, height: u32, i: int)
    requires
        0 <= i < free.len(),
        free[i].kind == kind && free[i].width == width && free[i].height == height,
        forall|j: int| 0 <= j < i
            ==> !(free[j].kind == kind && free[j].width == width && free[j].height == height),
    ensures
        find_match(free, kind, width, height) == Some(i),
    decreases free.len(),
{
    if i == 0 {
    } else {
        assert(free.drop_first()[i - 1] == free[i]);
        assert(forall|j: int| 0 <= j < i - 1 ==> free.drop_first()[j] == free[j + 1]);
        lemma_find_match_first(free.drop_first(), kind, width, height, i - 1);
    }
}

/// If no element matches, the search comes back empty.
proof fn lemma_find_match_none(free: Seq<Buffer>, kind: BufferKind, width: u32, height: u32)
    requires
        forall|j: int| 0 <= j < free.len()
            ==> !(free[j].kind == kind && free[j].width == width && free[j].height == height),
    ensures
        find_match(free, kind, width, height) is None,
    decreases free.len(),
{
    if free.len() == 0 {
    } else {
        assert(forall|j: int| 0 <= j < free.len() - 1 ==> free.drop_first()[j] == free[j + 1]);
        lemma_find_match_none(free.drop_first(), kind, width, height);
    }
}

} // verus!
