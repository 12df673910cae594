//! The context re-entrancy stack. One evaluation scope token exists per
//! active context; opening a second scope for a context that is already being
//! evaluated is illegal. A boundary call therefore first looks for an entry
//! of its context on this stack: a nested call borrows the existing token, an
//! outermost call pushes a fresh one and pops it again on every exit path.
//!
//! Everything runs on one logical thread of control, so the entry found on
//! the stack is owned by a frame further up the same call stack and is still
//! alive.

use vstd::prelude::*;

verus! {

/// The identity of one engine context, carried across the boundary as an
/// opaque 64-bit word.
pub struct ContextPtr {
    pub ptr: u64,
}

impl ContextPtr {
    pub fn new(ptr: u64) -> (c: Self)
        ensures
            c.ptr == ptr,
    {
        ContextPtr { ptr }
    }
}

/// The stack of (context identity, scope token) pairs for the contexts that
/// are currently being evaluated, innermost last.
pub struct ContextStack {
    entries: Vec<(u64, u64)>,
}

impl ContextStack {
    /// The stack as a sequence of (context identity, scope token) pairs.
    pub closed spec fn view(self) -> Seq<(u64, u64)> {
        self.entries@
    }

    /// Whether some frame below is already evaluating context `id`.
    pub open spec fn is_active(self, id: u64) -> bool {
        exists|k: int| 0 <= k < self@.len() && self@[k].0 == id
    }

    /// The scope token of the most recent frame evaluating context `id`.
    pub open spec fn active_token(self, id: u64) -> u64
        recommends
            self.is_active(id),
    {
        self@[Self::top_index(self@, id)].1
    }

    /// Index of the topmost entry for `id`.
    pub open spec fn top_index(entries: Seq<(u64, u64)>, id: u64) -> int
        decreases entries.len(),
    {
        if entries.len() == 0 {
            -1
        } else if entries.last().0 == id {
            entries.len() - 1
        } else {
            Self::top_index(entries.drop_last(), id)
        }
    }

    pub fn new() -> (s: Self)
        ensures
            s@ == Seq::<(u64, u64)>::empty(),
    {
        ContextStack { entries: Vec::new() }
    }

    /// Relation between the stack before and after `enter(id, fresh_token)`
    /// returned `(token, pushed)`: a nested entry reuses the innermost live
    /// token for the same context and leaves the stack untouched; an
    /// outermost entry pushes one new frame carrying the fresh token.
    pub open spec fn enter_step(
        pre: Self,
        post: Self,
        id: u64,
        fresh_token: u64,
        token: u64,
        pushed: bool,
    ) -> bool {
        if pre.is_active(id) {
            &&& !pushed
            &&& token == pre.active_token(id)
            &&& post@ == pre@
        } else {
            &&& pushed
            &&& token == fresh_token
            &&& post@ == pre@.push((id, fresh_token))
        }
    }

    /// Enter context `id`. `fresh_token` is the scope token to install if no
    /// frame is evaluating `id` yet; the returned flag says whether this call
    /// pushed (and therefore owns) its frame.
    pub fn enter(&mut self, id: u64, fresh_token: u64) -> (r: (u64, bool))
        ensures
            Self::enter_step(*old(self), *final(self), id, fresh_token, r.0, r.1),
    {
        // Search from the top: the innermost frame for this context owns the
        // token that a re-entrant call must borrow.
        let n = self.entries.len();
        let mut k = n;
        while k > 0
            invariant
                k <= n,
                n == self.entries@.len(),
                forall|j: int| k <= j < n ==> self.entries@[j].0 != id,
            decreases k,
        {
            k = k - 1;
            let entry = self.entries[k];
            if entry.0 == id {
                proof {
                    assert(0 <= k < self@.len() && self@[k as int].0 == id);
                    lemma_top_index_finds(self.entries@, id, k as int);
                }
                return (entry.1, false);
            }
        }
        self.entries.push((id, fresh_token));
        (fresh_token, true)
    }

    /// Leave a context entered with `enter`. Only the call that pushed its
    /// frame pops it, so frames are released in exactly the reverse order of
    /// their creation, on every exit path.
    pub fn exit(&mut self, pushed: bool)
        requires
            pushed ==> old(self)@.len() > 0,
        ensures
            pushed ==> final(self)@ == old(self)@.drop_last(),
            !pushed ==> final(self)@ == old(self)@,
    {
        if pushed {
            let _ = self.entries.pop();
        }
    }
}

/// When entry `k` holds `id` and nothing above it does, `k` is the topmost
/// entry for `id`.
proof fn lemma_top_index_finds(entries: Seq<(u64, u64)>, id: u64, k: int)
    requires
        0 <= k < entries.len(),
        entries[k].0 == id,
        forall|j: int| k < j < entries.len() ==> entries[j].0 != id,
    ensures
        ContextStack::top_index(entries, id) == k,
    decreases entries.len(),
{
    if entries.last().0 == id {
        assert(k == entries.len() - 1);
    } else {
        lemma_top_index_finds(entries.drop_last(), id, k);
    }
}

/// Law: a boundary call re-entering a context that is already being evaluated
/// creates no second scope — the stack is unchanged and the borrowed token is
/// the one owned by the live frame — and an outermost enter followed by its
/// exit restores the stack exactly, so frames pop in reverse push order.
pub proof fn lemma_reentrancy(
    s0: ContextStack,
    s1: ContextStack,
    id: u64,
    fresh_token: u64,
    token: u64,
    pushed: bool,
)
    requires
        ContextStack::enter_step(s0, s1, id, fresh_token, token, pushed),
    ensures
        s0.is_active(id) ==> !pushed && s1@ == s0@ && token == s0.active_token(id),
        !s0.is_active(id) ==> pushed && s1@.drop_last() == s0@,
{
    if !s0.is_active(id) {
        assert(s1@.drop_last() =~= s0@);
    }
}

} // verus!
