//! The handle registry: boundary-safe opaque references to engine-owned
//! values. A handle is a single 64-bit word packing a slot index and a
//! generation counter, so that use after close and double close are detected
//! instead of being undefined behaviour.

use vstd::prelude::*;

verus! {

/// Number of possible generations per slot; the low 32 bits of a handle hold
/// the generation, the high 32 bits the slot index.
pub const GEN_SPAN: u64 = 0x1_0000_0000;

/// One arena slot: the generation the slot is currently at, and its value
/// while the slot is live.
pub(crate) struct Slot<T> {
    pub(crate) gen: u32,
    pub(crate) val: Option<T>,
}

/// Slot index of a handle.
pub open spec fn handle_index(h: u64) -> int {
    h as int / GEN_SPAN as int
}

/// Generation of a handle.
pub open spec fn handle_gen(h: u64) -> int {
    h as int % GEN_SPAN as int
}

/// The handle made of slot index `i` at generation `g`.
pub open spec fn spec_handle(i: int, g: int) -> u64 {
    (i * GEN_SPAN as int + g) as u64
}

/// An arena of persisted values addressed by opaque 64-bit handles.
///
/// `persist` stores a value and hands out a fresh handle; `restore` reads it
/// any number of times without consuming it; `close` releases it exactly
/// once. Closing bumps the slot generation, so a stale handle no longer
/// matches and is reported instead of yielding another value's slot.
pub struct HandleTable<T> {
    pub(crate) slots: Vec<Slot<T>>,
    /// Indices of slots that are free for reuse.
    pub(crate) free: Vec<u32>,
}

impl<T> HandleTable<T> {
    /// Internal consistency: every free index points at an empty slot within
    /// bounds, no index is listed twice, and the arena never outgrows the
    /// index space of a handle.
    pub closed spec fn wf(self) -> bool {
        &&& self.slots@.len() < GEN_SPAN
        &&& forall|k: int|
            0 <= k < self.free@.len() ==> #[trigger] self.free@[k] < self.slots@.len()
                && self.slots@[self.free@[k] as int].val is None
        &&& forall|k1: int, k2: int|
            0 <= k1 < k2 < self.free@.len() ==> self.free@[k1] != self.free@[k2]
    }

    /// Whether handle `h` is live in this table.
    pub closed spec fn contains(self, h: u64) -> bool {
        &&& 0 <= handle_index(h) < self.slots@.len()
        &&& self.slots@[handle_index(h)].gen == handle_gen(h)
        &&& self.slots@[handle_index(h)].val is Some
    }

    /// The value a live handle refers to.
    pub closed spec fn at(self, h: u64) -> T
        recommends
            self.contains(h),
    {
        self.slots@[handle_index(h)].val->0
    }

    /// The registry as a map from live handles to their values.
    pub open spec fn view_map(self) -> Map<u64, T> {
        Map::new(|h: u64| self.contains(h), |h: u64| self.at(h))
    }

    pub fn new() -> (t: Self)
        ensures
            t.wf(),
            t.arena_len() == 0,
            forall|h: u64| !t.contains(h),
    {
        HandleTable { slots: Vec::new(), free: Vec::new() }
    }

    /// Relation between the table before and after `persist(v)` returned `h`:
    /// the new handle was not live, now refers to `v`, and every other handle
    /// is untouched.
    pub open spec fn persist_step(pre: Self, post: Self, v: T, h: u64) -> bool {
        &&& !pre.contains(h)
        &&& post.contains(h)
        &&& post.at(h) == v
        &&& forall|h2: u64| h2 != h ==> #[trigger] post.contains(h2) == pre.contains(h2)
        &&& forall|h2: u64|
            h2 != h && pre.contains(h2) ==> #[trigger] post.at(h2) == pre.at(h2)
    }

    /// Relation between the table before and after `close(h)`: the handle is
    /// no longer live and every other handle is untouched.
    pub open spec fn close_step(pre: Self, post: Self, h: u64) -> bool {
        &&& !post.contains(h)
        &&& forall|h2: u64| h2 != h ==> #[trigger] post.contains(h2) == pre.contains(h2)
        &&& forall|h2: u64|
            h2 != h && pre.contains(h2) ==> #[trigger] post.at(h2) == pre.at(h2)
    }

    /// How many arena slots exist; grows by at most one per `persist` and
    /// never shrinks.
    pub closed spec fn arena_len(self) -> int {
        self.slots@.len() as int
    }

    /// Whether one more value can be persisted: the arena has not exhausted
    /// the index space of a handle.
    pub open spec fn has_room(self) -> bool {
        self.arena_len() + 1 < GEN_SPAN
    }

    /// Store `v` and return a fresh handle for it. Every handle live before
    /// the call stays live with its value; the new handle was not live.
    pub fn persist(&mut self, v: T) -> (h: u64)
        requires
            old(self).wf(),
            old(self).has_room(),
        ensures
            final(self).wf(),
            final(self).arena_len() <= old(self).arena_len() + 1,
            Self::persist_step(*old(self), *final(self), v, h),
    {
        if let Some(i) = self.free.pop() {
            let idx = i as usize;
            let slot = &mut self.slots[idx];
            slot.val = Some(v);
            let g = slot.gen;
            let h = (i as u64) * GEN_SPAN + (g as u64);
            proof {
                lemma_handle_parts(i as int, g as int);
            }
            h
        } else {
            let i = self.slots.len();
            self.slots.push(Slot { gen: 0, val: Some(v) });
            let h = (i as u64) * GEN_SPAN;
            proof {
                lemma_handle_parts(i as int, 0);
            }
            h
        }
    }

    /// Read the value a handle refers to. A handle that is not live (never
    /// issued, or already closed) is reported as `None`, never as another
    /// slot's value.
    pub fn restore(&self, h: u64) -> (r: Option<&T>)
        requires
            self.wf(),
        ensures
            match r {
                Some(v) => self.contains(h) && *v == self.at(h),
                None => !self.contains(h),
            },
    {
        let i = h / GEN_SPAN;
        let g = h % GEN_SPAN;
        if i < self.slots.len() as u64 {
            let slot = &self.slots[i as usize];
            if slot.gen as u64 == g {
                if let Some(v) = &slot.val {
                    return Some(v);
                }
            }
        }
        None
    }

    /// Replace the value a live handle refers to, returning the old value;
    /// the handle itself and every other handle stay as they are. A dead
    /// handle is reported and nothing changes.
    pub fn replace(&mut self, h: u64, v: T) -> (r: Option<T>)
        requires
            old(self).wf(),
        ensures
            final(self).wf(),
            final(self).arena_len() == old(self).arena_len(),
            match r {
                Some(w) => {
                    &&& old(self).contains(h)
                    &&& w == old(self).at(h)
                    &&& final(self).contains(h)
                    &&& final(self).at(h) == v
                    &&& forall|h2: u64|
                        h2 != h ==> #[trigger] final(self).contains(h2) == old(self).contains(h2)
                    &&& forall|h2: u64|
                        h2 != h && old(self).contains(h2) ==> #[trigger] final(self).at(h2) == old(
                            self,
                        ).at(h2)
                },
                None => !old(self).contains(h) && *final(self) == *old(self),
            },
    {
        let i = h / GEN_SPAN;
        let g = h % GEN_SPAN;
        if i >= self.slots.len() as u64 {
            return None;
        }
        let idx = i as usize;
        let live = self.slots[idx].gen as u64 == g && self.slots[idx].val.is_some();
        if !live {
            return None;
        }
        let slot = &mut self.slots[idx];
        let r = slot.val.take();
        slot.val = Some(v);
        r
    }

    /// Release a handle. Returns the value it referred to, or `None` when the
    /// handle was not live (double close is detected, not undefined). The
    /// slot's generation is bumped, so the closed handle can never match
    /// again.
    pub fn close(&mut self, h: u64) -> (r: Option<T>)
        requires
            old(self).wf(),
        ensures
            final(self).wf(),
            final(self).arena_len() == old(self).arena_len(),
            match r {
                Some(v) => old(self).contains(h) && v == old(self).at(h),
                None => !old(self).contains(h),
            },
            Self::close_step(*old(self), *final(self), h),
    {
        let i = h / GEN_SPAN;
        let g = h % GEN_SPAN;
        if i >= self.slots.len() as u64 {
            return None;
        }
        let idx = i as usize;
        let ghost old_free = self.free@;
        let slot = &mut self.slots[idx];
        if slot.gen as u64 != g || slot.val.is_none() {
            return None;
        }
        let r = slot.val.take();
        if slot.gen < u32::MAX {
            // Bump the generation and put the slot up for reuse.
            slot.gen = slot.gen + 1;
            self.free.push(i as u32);
            proof {
                assert(forall|k: int|
                    0 <= k < old_free.len() ==> old(self).slots@[#[trigger] old_free[k] as int].val is None);
            }
        }
        // A slot whose generation is exhausted is retired: it stays empty and
        // is never reused, so no stale handle can ever match it.
        r
    }
}

/// Law: a handle fresh from `persist(v)` is live and restores to exactly
/// `v` — `restore`'s own contract then forces it to return `Some(v)` — and
/// persisting touches no other handle.
pub proof fn lemma_restore_after_persist<T>(pre: HandleTable<T>, post: HandleTable<T>, v: T, h: u64)
    requires
        HandleTable::persist_step(pre, post, v, h),
    ensures
        post.contains(h),
        post.at(h) == v,
        post.view_map().contains_key(h),
        post.view_map()[h] == v,
{
}

/// Law: once a handle has been closed it is dead, however it was obtained, so
/// a later `restore` is forced by its contract to report `None` instead of a
/// value; every other live handle keeps its value.
pub proof fn lemma_restore_after_close_detected<T>(
    pre: HandleTable<T>,
    post: HandleTable<T>,
    h: u64,
)
    requires
        HandleTable::close_step(pre, post, h),
    ensures
        !post.contains(h),
        !post.view_map().contains_key(h),
        forall|h2: u64|
            h2 != h && pre.contains(h2) ==> #[trigger] post.contains(h2) && post.at(h2) == pre.at(
                h2,
            ),
{
}

/// Packing a slot index and a generation into one 64-bit handle is invertible.
proof fn lemma_handle_parts(i: int, g: int)
    requires
        0 <= i < GEN_SPAN,
        0 <= g < GEN_SPAN,
    ensures
        handle_index(spec_handle(i, g)) == i,
        handle_gen(spec_handle(i, g)) == g,
        spec_handle(i, g) == i * GEN_SPAN + g,
{
    let c = GEN_SPAN as int;
    assert(0 <= i * c + g < c * c) by (nonlinear_arith)
        requires
            0 <= i < c,
            0 <= g < c,
            c == GEN_SPAN as int,
    ;
    assert((i * c + g) / c == i && (i * c + g) % c == g) by (nonlinear_arith)
        requires
            0 <= i,
            0 <= g < c,
            c > 0,
    ;
}

} // verus!
