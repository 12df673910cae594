//! Conversion of engine values to boundary proxies, and the bridging of
//! promises to host futures.
//!
//! Conversion is shallow: primitives are copied, every engine-owned compound
//! value is persisted once and carried as a handle, and a promise is diverted
//! to the bridge instead of being wrapped as a plain handle. Allocating a
//! host future is the host's work, so bridging an unbridged promise is a
//! two-step exchange: `convert` reports `NeedsFuture`, the caller obtains a
//! fresh future id from the host, and `finish_bridge` installs it and
//! attaches the settlement callbacks.

use vstd::prelude::*;

use crate::engine::{
    entries_wf, ev_entries, ev_list, lemma_ev_entries, lemma_ev_list, list_wf, val_wf, EngineVal,
    EngineValue, PromiseData, PromiseState, ScriptEngine, SettleEvent,
};
use crate::proxy::{JSJavaProxy, ProxyVal};
use crate::registry::HandleTable;

verus! {

/// The state of a bridging that waits for the host to allocate a future:
/// which promise, and the handle of its persisted container, which the host
/// receives with the allocation request.
#[derive(Clone, Copy, Debug, PartialEq, Eq)]
pub struct PendingBridge {
    pub pidx: usize,
    pub container: u64,
}

/// Outcome of converting one engine value: either the finished proxy, or a
/// bridging that needs a host future id to complete.
#[derive(Debug, PartialEq, Eq)]
pub enum Converted {
    Done(JSJavaProxy),
    NeedsFuture(PendingBridge),
}

/// Relation between a registry before and after persisting a value that
/// stands for `m`: the fresh handle `h` was not live, now refers to a value
/// modelling `m`, and every other handle is untouched.
pub open spec fn persist_val_step(
    pre: HandleTable<EngineValue>,
    post: HandleTable<EngineValue>,
    m: EngineVal,
    h: u64,
) -> bool {
    &&& !pre.contains(h)
    &&& post.contains(h)
    &&& post.at(h).ev() == m
    &&& forall|h2: u64| h2 != h ==> #[trigger] post.contains(h2) == pre.contains(h2)
    &&& forall|h2: u64| h2 != h && pre.contains(h2) ==> #[trigger] post.at(h2) == pre.at(h2)
}

/// The job queue `post` is `pre` plus one settlement callback invocation for
/// future `fid` carrying a value that stands for `m`.
pub open spec fn jobs_plus(
    pre: Seq<SettleEvent>,
    post: Seq<SettleEvent>,
    fid: i32,
    resolved: bool,
    m: EngineVal,
) -> bool {
    &&& post.len() == pre.len() + 1
    &&& forall|k: int| 0 <= k < pre.len() ==> #[trigger] post[k] == pre[k]
    &&& post.last().future_id == fid
    &&& post.last().resolved == resolved
    &&& post.last().value.ev() == m
}

/// Relation between a promise before and after the bridge's callbacks are
/// attached for future `fid`: the future id is installed, the callbacks are
/// attached, and — exactly when the promise is already settled and its
/// callback has not fired — one settlement job is queued. Attaching is
/// idempotent: a promise whose callbacks are already attached is left as it
/// is.
pub open spec fn attach_step(
    pd: PromiseData,
    pd2: PromiseData,
    fid: i32,
    pre_jobs: Seq<SettleEvent>,
    post_jobs: Seq<SettleEvent>,
) -> bool {
    &&& pd2.state == pd.state
    &&& pd2.container == pd.container
    &&& pd2.future_id == Some(fid)
    &&& pd2.attached
    &&& match pd.state {
        PromiseState::Pending => pd2.fired == pd.fired && post_jobs == pre_jobs,
        PromiseState::Resolved(v) => pd2.fired && if !pd.fired {
            jobs_plus(pre_jobs, post_jobs, fid, true, v.ev())
        } else {
            post_jobs == pre_jobs
        },
        PromiseState::Rejected(v) => pd2.fired && if !pd.fired {
            jobs_plus(pre_jobs, post_jobs, fid, false, v.ev())
        } else {
            post_jobs == pre_jobs
        },
    }
}

impl ScriptEngine {
    /// Relation between the engine before and after bridging promise `pidx`:
    /// a container handle exists (reused, or persisted now), the future id is
    /// reused when the promise is already bridged — yielding the finished
    /// future proxy — and is requested from the host otherwise.
    pub open spec fn bridge_post(pre: Self, post: Self, pidx: int, r: Converted) -> bool {
        let pd = pre.proms()[pidx];
        let pd2 = post.proms()[pidx];
        &&& post.n_promises() == pre.n_promises()
        &&& post.globals_view() == pre.globals_view()
        &&& forall|j: int|
            0 <= j < pre.n_promises() && j != pidx ==> #[trigger] post.proms()[j] == pre.proms()[j]
        &&& match pd.container {
            Some(h) => pd2.container == Some(h) && post.reg() == pre.reg(),
            None => pd2.container matches Some(h) && persist_val_step(
                pre.reg(),
                post.reg(),
                EngineVal::Promise(pidx),
                h,
            ),
        }
        &&& match pd.future_id {
            Some(fid) => {
                &&& r matches Converted::Done(p)
                &&& p.dv() == ProxyVal::Future(fid, pd2.container->0)
                &&& attach_step(
                    PromiseData { container: pd2.container, ..pd },
                    pd2,
                    fid,
                    pre.job_queue(),
                    post.job_queue(),
                )
            },
            None => {
                &&& r matches Converted::NeedsFuture(pending)
                &&& pending.pidx == pidx
                &&& Some(pending.container) == pd2.container
                &&& pd2.state == pd.state
                &&& pd2.future_id is None
                &&& pd2.attached == pd.attached
                &&& pd2.fired == pd.fired
                &&& post.job_queue() == pre.job_queue()
            },
        }
    }

    /// Install future `fid` on promise `pidx` and attach the settlement
    /// callbacks: the same handler answers the rejection path of `then` and
    /// `catch`, so either path converges on one rejection callback. A promise
    /// that is already settled has its one callback invocation queued now.
    fn attach_callbacks(&mut self, pidx: usize, fid: i32)
        requires
            old(self).wf(),
            pidx < old(self).n_promises(),
            old(self).proms()[pidx as int].future_id is None || old(self).proms()[
                pidx as int
            ].future_id == Some(fid),
        ensures
            final(self).wf(),
            final(self).reg() == old(self).reg(),
            final(self).globals_view() == old(self).globals_view(),
            final(self).n_promises() == old(self).n_promises(),
            forall|j: int|
                0 <= j < old(self).n_promises() && j != pidx
                    ==> #[trigger] final(self).proms()[j] == old(self).proms()[j],
            attach_step(
                old(self).proms()[pidx as int],
                final(self).proms()[pidx as int],
                fid,
                old(self).job_queue(),
                final(self).job_queue(),
            ),
    {
        let mut queued: Option<SettleEvent> = None;
        {
            let pd = &mut self.promises[pidx];
            pd.future_id = Some(fid);
            pd.attached = true;
            if !pd.fired {
                match &pd.state {
                    PromiseState::Pending => {},
                    PromiseState::Resolved(v) => {
                        queued = Some(
                            SettleEvent { future_id: fid, resolved: true, value: v.clone() },
                        );
                        pd.fired = true;
                    },
                    PromiseState::Rejected(v) => {
                        queued = Some(
                            SettleEvent { future_id: fid, resolved: false, value: v.clone() },
                        );
                        pd.fired = true;
                    },
                }
            }
        }
        if let Some(ev) = queued {
            self.jobs.push(ev);
        }
    }

    /// Complete a bridging for which the host has allocated `future_id`: the
    /// id is stored as a hidden property of the promise — so converting the
    /// same promise again reuses it — and the settlement callbacks are
    /// attached.
    pub fn finish_bridge(&mut self, pending: PendingBridge, future_id: i32) -> (p: JSJavaProxy)
        requires
            old(self).wf(),
            pending.pidx < old(self).n_promises(),
            old(self).proms()[pending.pidx as int].future_id is None,
            old(self).proms()[pending.pidx as int].container == Some(pending.container),
        ensures
            final(self).wf(),
            final(self).reg() == old(self).reg(),
            final(self).globals_view() == old(self).globals_view(),
            final(self).n_promises() == old(self).n_promises(),
            forall|j: int|
                0 <= j < old(self).n_promises() && j != pending.pidx
                    ==> #[trigger] final(self).proms()[j] == old(self).proms()[j],
            attach_step(
                old(self).proms()[pending.pidx as int],
                final(self).proms()[pending.pidx as int],
                future_id,
                old(self).job_queue(),
                final(self).job_queue(),
            ),
            p.dv() == ProxyVal::Future(future_id, pending.container),
    {
        self.attach_callbacks(pending.pidx, future_id);
        JSJavaProxy::CompletableFuture(future_id, pending.container)
    }

    /// Divert a promise into the bridge. On first contact its container is
    /// persisted and its handle stored as a hidden property of the promise;
    /// an already bridged promise yields the same future id again. When no
    /// future exists yet, the caller must obtain one from the host and call
    /// `finish_bridge`.
    pub fn convert_promise(&mut self, pidx: usize) -> (r: Converted)
        requires
            old(self).wf(),
            pidx < old(self).n_promises(),
            old(self).reg().has_room(),
        ensures
            final(self).wf(),
            final(self).reg().arena_len() <= old(self).reg().arena_len() + 1,
            Self::bridge_post(*old(self), *final(self), pidx as int, r),
    {
        let existing = self.promises[pidx].container;
        let h = match existing {
            Some(h) => h,
            None => {
                let h = self.registry.persist(EngineValue::Promise(pidx));
                self.promises[pidx].container = Some(h);
                h
            },
        };
        let fid_opt = self.promises[pidx].future_id;
        match fid_opt {
            None => Converted::NeedsFuture(PendingBridge { pidx, container: h }),
            Some(fid) => {
                self.attach_callbacks(pidx, fid);
                Converted::Done(JSJavaProxy::CompletableFuture(fid, h))
            },
        }
    }

    /// Nothing but the handle registry differs between `pre` and `post`.
    pub open spec fn only_registry_changed(pre: Self, post: Self) -> bool {
        &&& post.proms() == pre.proms()
        &&& post.job_queue() == pre.job_queue()
        &&& post.globals_view() == pre.globals_view()
    }

    /// Relation between the engine before and after converting a value that
    /// stands for `m`: primitives are copied, every engine-owned compound
    /// value is persisted once and returned as a handle-carrying proxy, and a
    /// promise goes through the bridge.
    pub open spec fn convert_post(pre: Self, post: Self, m: EngineVal, r: Converted) -> bool {
        match m {
            EngineVal::Null => {
                &&& post == pre
                &&& r matches Converted::Done(p)
                &&& p.dv() == ProxyVal::Null
            },
            EngineVal::Undefined => {
                &&& post == pre
                &&& r matches Converted::Done(p)
                &&& p.dv() == ProxyVal::Undefined
            },
            EngineVal::Boolean(b) => {
                &&& post == pre
                &&& r matches Converted::Done(p)
                &&& p.dv() == ProxyVal::Boolean(b)
            },
            EngineVal::Int(i) => {
                &&& post == pre
                &&& r matches Converted::Done(p)
                &&& p.dv() == ProxyVal::Int(i)
            },
            EngineVal::Float(bits) => {
                &&& post == pre
                &&& r matches Converted::Done(p)
                &&& p.dv() == ProxyVal::Float(bits)
            },
            EngineVal::Str(s) => {
                &&& post == pre
                &&& r matches Converted::Done(p)
                &&& p.dv() == ProxyVal::Str(s)
            },
            EngineVal::Thrown(msg, stack) => {
                &&& post == pre
                &&& r matches Converted::Done(p)
                &&& p.dv() == ProxyVal::Exc(msg, stack)
            },
            EngineVal::Array(_) => {
                &&& Self::only_registry_changed(pre, post)
                &&& r matches Converted::Done(p)
                &&& p.dv() matches ProxyVal::NativeArr(h)
                &&& persist_val_step(pre.reg(), post.reg(), m, h)
            },
            EngineVal::Object(_) => {
                &&& Self::only_registry_changed(pre, post)
                &&& r matches Converted::Done(p)
                &&& p.dv() matches ProxyVal::NativeObj(h)
                &&& persist_val_step(pre.reg(), post.reg(), m, h)
            },
            EngineVal::Function(name) => {
                &&& Self::only_registry_changed(pre, post)
                &&& r matches Converted::Done(p)
                &&& p.dv() matches ProxyVal::Fun(nm, h)
                &&& nm == name
                &&& persist_val_step(pre.reg(), post.reg(), m, h)
            },
            EngineVal::HostFn(_, _) => {
                &&& Self::only_registry_changed(pre, post)
                &&& r matches Converted::Done(p)
                &&& p.dv() matches ProxyVal::Fun(nm, h)
                &&& nm == Seq::<char>::empty()
                &&& persist_val_step(pre.reg(), post.reg(), m, h)
            },
            EngineVal::Promise(pidx) => Self::bridge_post(pre, post, pidx, r),
        }
    }

    /// Convert one engine value into its boundary proxy.
    pub fn convert(&mut self, v: &EngineValue) -> (r: Converted)
        requires
            old(self).wf(),
            val_wf(v.ev(), old(self).n_promises()),
            old(self).reg().has_room(),
        ensures
            final(self).wf(),
            final(self).reg().arena_len() <= old(self).reg().arena_len() + 1,
            Self::convert_post(*old(self), *final(self), v.ev(), r),
    {
        match v {
            EngineValue::Null => Converted::Done(JSJavaProxy::Null),
            EngineValue::Undefined => Converted::Done(JSJavaProxy::Undefined),
            EngineValue::Boolean(b) => Converted::Done(JSJavaProxy::Boolean(*b)),
            EngineValue::Int(i) => Converted::Done(JSJavaProxy::Int(*i)),
            EngineValue::Float(bits) => Converted::Done(JSJavaProxy::Float(*bits)),
            EngineValue::Str(s) => Converted::Done(JSJavaProxy::String(s.clone())),
            EngineValue::Thrown(msg, stack) => Converted::Done(
                JSJavaProxy::Exception(msg.clone(), stack.clone()),
            ),
            EngineValue::Array(_) => {
                let h = self.registry.persist(v.clone());
                proof {
                    lemma_wf_after_persist(*old(self), *self, v.ev(), h);
                }
                Converted::Done(JSJavaProxy::NativeArray(h))
            },
            EngineValue::Object(_) => {
                let h = self.registry.persist(v.clone());
                proof {
                    lemma_wf_after_persist(*old(self), *self, v.ev(), h);
                }
                Converted::Done(JSJavaProxy::NativeObject(h))
            },
            EngineValue::Function(name) => {
                let nm = name.clone();
                let h = self.registry.persist(v.clone());
                proof {
                    lemma_wf_after_persist(*old(self), *self, v.ev(), h);
                }
                Converted::Done(JSJavaProxy::Function(nm, h))
            },
            EngineValue::HostFn(_, _) => {
                let h = self.registry.persist(v.clone());
                proof {
                    lemma_wf_after_persist(*old(self), *self, v.ev(), h);
                }
                Converted::Done(JSJavaProxy::Function(String::new(), h))
            },
            EngineValue::Promise(pidx) => self.convert_promise(*pidx),
        }
    }
}

/// A proxy that cannot be turned back into an engine value. Such a failure is
/// fatal to the current boundary call: it is never silently downgraded,
/// because guessing at data semantics across the boundary is unacceptable.
#[derive(Debug, PartialEq, Eq)]
pub enum ConversionError {
    /// The proxy carries a handle that is not live.
    UnknownHandle(u64),
    /// The proxy claims a future, but its handle does not refer to a promise.
    NotAPromise(u64),
    /// The handle does not refer to an object.
    NotAnObject(u64),
    /// The handle does not refer to an array.
    NotAnArray(u64),
    /// The proxy cannot serve as a property key. Only string keys are decided
    /// here; the engine's own stringification of other key kinds lives beyond
    /// this boundary.
    InvalidKey,
}

/// The engine value that a proxy standing for `m` materializes to, against
/// registry `reg`; `None` when a handle is dead or a claimed promise is none.
pub open spec fn spec_materialize(m: ProxyVal, reg: HandleTable<EngineValue>) -> Option<EngineVal>
    decreases m, 0int,
{
    match m {
        ProxyVal::Null => Some(EngineVal::Null),
        ProxyVal::Undefined => Some(EngineVal::Undefined),
        ProxyVal::Str(s) => Some(EngineVal::Str(s)),
        ProxyVal::Int(i) => Some(EngineVal::Int(i)),
        ProxyVal::Float(bits) => Some(EngineVal::Float(bits)),
        ProxyVal::Boolean(b) => Some(EngineVal::Boolean(b)),
        ProxyVal::Arr(items) => match spec_materialize_list(items, reg) {
            Some(vals) => Some(EngineVal::Array(vals)),
            None => None,
        },
        ProxyVal::Obj(entries) => match spec_materialize_entries(entries, reg) {
            Some(vals) => Some(EngineVal::Object(vals)),
            None => None,
        },
        ProxyVal::NativeArr(h) => if reg.contains(h) {
            Some(reg.at(h).ev())
        } else {
            None
        },
        ProxyVal::NativeObj(h) => if reg.contains(h) {
            Some(reg.at(h).ev())
        } else {
            None
        },
        ProxyVal::Fun(_, h) => if reg.contains(h) {
            Some(reg.at(h).ev())
        } else {
            None
        },
        ProxyVal::HostFun(ctx, f) => Some(EngineVal::HostFn(ctx, f)),
        ProxyVal::Exc(msg, stack) => Some(EngineVal::Thrown(msg, stack)),
        ProxyVal::Future(_, h) => if reg.contains(h) {
            match reg.at(h).ev() {
                EngineVal::Promise(pidx) => Some(EngineVal::Promise(pidx)),
                _ => None,
            }
        } else {
            None
        },
    }
}

/// `spec_materialize`, elementwise.
pub open spec fn spec_materialize_list(items: Seq<ProxyVal>, reg: HandleTable<EngineValue>) -> Option<
    Seq<EngineVal>,
>
    decreases items, 1int,
{
    if items.len() == 0 {
        Some(Seq::empty())
    } else {
        match spec_materialize(items[0], reg) {
            Some(v) => match spec_materialize_list(items.drop_first(), reg) {
                Some(vals) => Some(seq![v] + vals),
                None => None,
            },
            None => None,
        }
    }
}

/// `spec_materialize`, entrywise.
pub open spec fn spec_materialize_entries(
    entries: Seq<(Seq<char>, ProxyVal)>,
    reg: HandleTable<EngineValue>,
) -> Option<Seq<(Seq<char>, EngineVal)>>
    decreases entries, 1int,
{
    if entries.len() == 0 {
        Some(Seq::empty())
    } else {
        match spec_materialize(entries[0].1, reg) {
            Some(v) => match spec_materialize_entries(entries.drop_first(), reg) {
                Some(vals) => Some(seq![(entries[0].0, v)] + vals),
                None => None,
            },
            None => None,
        }
    }
}

/// Only the hidden future-id properties of promises may differ between the
/// two promise heaps.
pub open spec fn proms_future_only(pre: Seq<PromiseData>, post: Seq<PromiseData>) -> bool {
    &&& post.len() == pre.len()
    &&& forall|j: int|
        0 <= j < pre.len() ==> {
            &&& (#[trigger] post[j]).state == pre[j].state
            &&& post[j].container == pre[j].container
            &&& post[j].attached == pre[j].attached
            &&& post[j].fired == pre[j].fired
        }
}

impl ScriptEngine {
    /// Materialize a proxy back into an engine value: the inverse of
    /// `convert`. Handle variants restore through the registry; a dead handle
    /// is reported, never another value. A future proxy restores its promise
    /// and re-attaches the future id as the promise's hidden property, so a
    /// later conversion of the same promise is idempotent.
    pub fn materialize(&mut self, p: &JSJavaProxy) -> (r: Result<EngineValue, ConversionError>)
        requires
            old(self).wf(),
        ensures
            final(self).wf(),
            final(self).reg() == old(self).reg(),
            final(self).globals_view() == old(self).globals_view(),
            final(self).job_queue() == old(self).job_queue(),
            proms_future_only(old(self).proms(), final(self).proms()),
            match r {
                Ok(w) => {
                    &&& spec_materialize(p.dv(), old(self).reg()) == Some(w.ev())
                    &&& val_wf(w.ev(), old(self).n_promises())
                },
                Err(err) => {
                    &&& spec_materialize(p.dv(), old(self).reg()) is None
                    &&& match err {
                        ConversionError::UnknownHandle(h) => !old(self).reg().contains(h),
                        ConversionError::NotAPromise(h) => old(self).reg().contains(h) && !(old(
                            self,
                        ).reg().at(h).ev() is Promise),
                        _ => false,
                    }
                },
            },
            match p.dv() {
                ProxyVal::Future(fid, h) => r is Ok ==> {
                    &&& old(self).reg().at(h).ev() matches EngineVal::Promise(pidx)
                    &&& final(self).proms()[pidx].future_id == Some(fid)
                },
                _ => true,
            },
        decreases *p,
    {
        match p {
            JSJavaProxy::Null => Ok(EngineValue::Null),
            JSJavaProxy::Undefined => Ok(EngineValue::Undefined),
            JSJavaProxy::String(s) => Ok(EngineValue::Str(s.clone())),
            JSJavaProxy::Int(i) => Ok(EngineValue::Int(*i)),
            JSJavaProxy::Float(bits) => Ok(EngineValue::Float(*bits)),
            JSJavaProxy::Boolean(b) => Ok(EngineValue::Boolean(*b)),
            JSJavaProxy::Array(items) => {
                let ghost models = crate::proxy::dv_list(items@);
                proof {
                    crate::proxy::lemma_dv_list(items@);
                }
                let n = items.len();
                let mut out: Vec<EngineValue> = Vec::new();
                let mut i: usize = 0;
                while i < n
                    invariant
                        *p is Array,
                        p->Array_0 == *items,
                        i <= n,
                        n == items@.len(),
                        models == crate::proxy::dv_list(items@),
                        models.len() == n,
                        forall|k: int| 0 <= k < n ==> models[k] == items@[k].dv(),
                        self.wf(),
                        self.reg() == old(self).reg(),
                        self.globals_view() == old(self).globals_view(),
                        self.job_queue() == old(self).job_queue(),
                        proms_future_only(old(self).proms(), self.proms()),
                        self.n_promises() == old(self).n_promises(),
                        out@.len() == i,
                        spec_materialize_list(models.take(i as int), old(self).reg()) == Some(
                            ev_list(out@),
                        ),
                        forall|k: int|
                            0 <= k < i ==> val_wf(
                                #[trigger] out@[k].ev(),
                                old(self).n_promises(),
                            ),
                    decreases n - i,
                {
                    proof {
                        assert(decreases_to!(*p => p->Array_0));
                        assert(decreases_to!(*items => items@));
                        assert(decreases_to!(items@ => items@[i as int]));
                        assert(decreases_to!(*p => items@[i as int]));
                    }
                    let w = match self.materialize(&items[i]) {
                        Ok(w) => w,
                        Err(e) => {
                            proof {
                                lemma_materialize_list_fails(
                                    models,
                                    i as int,
                                    old(self).reg(),
                                );
                            }
                            return Err(e);
                        },
                    };
                    let ghost old_out = out@;
                    out.push(w);
                    proof {
                        lemma_ev_list_push(old_out, w);
                        lemma_materialize_list_extends(
                            models,
                            i as int,
                            old(self).reg(),
                            ev_list(old_out),
                            w.ev(),
                        );
                    }
                    i = i + 1;
                }
                proof {
                    assert(models.take(n as int) =~= models);
                    lemma_ev_list_wf(out@, old(self).n_promises());
                }
                Ok(EngineValue::Array(out))
            },
            JSJavaProxy::Object(entries) => {
                let ghost models = crate::proxy::dv_entries(entries@);
                proof {
                    crate::proxy::lemma_dv_entries(entries@);
                }
                let n = entries.len();
                let mut out: Vec<(String, EngineValue)> = Vec::new();
                let mut i: usize = 0;
                while i < n
                    invariant
                        *p is Object,
                        p->Object_0 == *entries,
                        i <= n,
                        n == entries@.len(),
                        models == crate::proxy::dv_entries(entries@),
                        models.len() == n,
                        forall|k: int|
                            0 <= k < n ==> models[k] == (entries@[k].0@, entries@[k].1.dv()),
                        self.wf(),
                        self.reg() == old(self).reg(),
                        self.globals_view() == old(self).globals_view(),
                        self.job_queue() == old(self).job_queue(),
                        proms_future_only(old(self).proms(), self.proms()),
                        self.n_promises() == old(self).n_promises(),
                        out@.len() == i,
                        spec_materialize_entries(models.take(i as int), old(self).reg()) == Some(
                            ev_entries(out@),
                        ),
                        forall|k: int|
                            0 <= k < i ==> val_wf(
                                #[trigger] out@[k].1.ev(),
                                old(self).n_promises(),
                            ),
                    decreases n - i,
                {
                    proof {
                        assert(decreases_to!(*p => p->Object_0));
                        assert(decreases_to!(*entries => entries@));
                        assert(decreases_to!(entries@ => entries@[i as int]));
                        assert(decreases_to!(entries@[i as int] => entries@[i as int].1));
                        assert(decreases_to!(*p => entries@[i as int].1));
                    }
                    let key = entries[i].0.clone();
                    let w = match self.materialize(&entries[i].1) {
                        Ok(w) => w,
                        Err(e) => {
                            proof {
                                lemma_materialize_entries_fails(
                                    models,
                                    i as int,
                                    old(self).reg(),
                                );
                            }
                            return Err(e);
                        },
                    };
                    let ghost old_out = out@;
                    out.push((key, w));
                    proof {
                        lemma_ev_entries_push(old_out, (key, w));
                        lemma_materialize_entries_extends(
                            models,
                            i as int,
                            old(self).reg(),
                            ev_entries(old_out),
                            (key@, w.ev()),
                        );
                    }
                    i = i + 1;
                }
                proof {
                    assert(models.take(n as int) =~= models);
                    lemma_ev_entries_wf(out@, old(self).n_promises());
                }
                Ok(EngineValue::Object(out))
            },
            JSJavaProxy::NativeArray(h) | JSJavaProxy::NativeObject(h) => {
                match self.registry.restore(*h) {
                    Some(v) => Ok(v.clone()),
                    None => Err(ConversionError::UnknownHandle(*h)),
                }
            },
            JSJavaProxy::Function(_, h) => {
                match self.registry.restore(*h) {
                    Some(v) => Ok(v.clone()),
                    None => Err(ConversionError::UnknownHandle(*h)),
                }
            },
            JSJavaProxy::JavaFunction(ctx, f) => Ok(EngineValue::HostFn(*ctx, *f)),
            JSJavaProxy::Exception(msg, stack) => Ok(
                EngineValue::Thrown(msg.clone(), stack.clone()),
            ),
            JSJavaProxy::CompletableFuture(fid, h) => {
                let pidx = match self.registry.restore(*h) {
                    Some(v) => match v {
                        EngineValue::Promise(pidx) => *pidx,
                        _ => {
                            return Err(ConversionError::NotAPromise(*h));
                        },
                    },
                    None => {
                        return Err(ConversionError::UnknownHandle(*h));
                    },
                };
                self.promises[pidx].future_id = Some(*fid);
                Ok(EngineValue::Promise(pidx))
            },
        }
    }
}

/// Pushing one value extends the elementwise model by its model.
proof fn lemma_ev_list_push(items: Seq<EngineValue>, v: EngineValue)
    ensures
        ev_list(items.push(v)) == ev_list(items).push(v.ev()),
{
    lemma_ev_list(items.push(v));
    lemma_ev_list(items);
    assert(ev_list(items.push(v)) =~= ev_list(items).push(v.ev()));
}

/// Pushing one entry extends the entrywise model by its model.
proof fn lemma_ev_entries_push(entries: Seq<(String, EngineValue)>, e: (String, EngineValue))
    ensures
        ev_entries(entries.push(e)) == ev_entries(entries).push((e.0@, e.1.ev())),
{
    lemma_ev_entries(entries.push(e));
    lemma_ev_entries(entries);
    assert(ev_entries(entries.push(e)) =~= ev_entries(entries).push((e.0@, e.1.ev())));
}

/// A list whose elements are all well formed is well formed.
proof fn lemma_ev_list_wf(items: Seq<EngineValue>, n: int)
    requires
        forall|k: int| 0 <= k < items.len() ==> val_wf(#[trigger] items[k].ev(), n),
    ensures
        list_wf(ev_list(items), n),
{
    lemma_ev_list(items);
    crate::engine::lemma_list_wf_index(ev_list(items), n);
}

/// An entry list whose values are all well formed is well formed.
proof fn lemma_ev_entries_wf(entries: Seq<(String, EngineValue)>, n: int)
    requires
        forall|k: int| 0 <= k < entries.len() ==> val_wf(#[trigger] entries[k].1.ev(), n),
    ensures
        entries_wf(ev_entries(entries), n),
{
    lemma_ev_entries(entries);
    crate::engine::lemma_entries_wf_index(ev_entries(entries), n);
}

/// When a prefix materializes and the next element does not, the whole list
/// does not.
proof fn lemma_materialize_list_fails(models: Seq<ProxyVal>, i: int, reg: HandleTable<EngineValue>)
    requires
        0 <= i < models.len(),
        spec_materialize(models[i], reg) is None,
    ensures
        spec_materialize_list(models, reg) is None,
    decreases i,
{
    if models.len() > 0 && i > 0 {
        lemma_materialize_list_fails(models.drop_first(), i - 1, reg);
    }
}

/// When a prefix materializes to `done` and the next element materializes to
/// `w`, the one-longer prefix materializes to `done.push(w)`.
proof fn lemma_materialize_list_extends(
    models: Seq<ProxyVal>,
    i: int,
    reg: HandleTable<EngineValue>,
    done: Seq<EngineVal>,
    w: EngineVal,
)
    requires
        0 <= i < models.len(),
        spec_materialize_list(models.take(i), reg) == Some(done),
        spec_materialize(models[i], reg) == Some(w),
    ensures
        spec_materialize_list(models.take(i + 1), reg) == Some(done.push(w)),
    decreases i,
{
    if i == 0 {
        assert(models.take(1)[0] == models[0]);
        assert(models.take(1).drop_first() =~= Seq::<ProxyVal>::empty());
        assert(models.take(0) =~= Seq::<ProxyVal>::empty());
        assert(done =~= Seq::<EngineVal>::empty());
        assert(seq![w] + Seq::<EngineVal>::empty() =~= done.push(w));
    } else {
        let m0 = models[0];
        let rest = models.drop_first();
        assert(models.take(i)[0] == m0);
        assert(models.take(i + 1)[0] == m0);
        assert(models.take(i).drop_first() =~= rest.take(i - 1));
        assert(models.take(i + 1).drop_first() =~= rest.take(i));
        let w0 = spec_materialize(m0, reg)->0;
        let done_rest = spec_materialize_list(rest.take(i - 1), reg)->0;
        assert(done == seq![w0] + done_rest);
        assert(rest[i - 1] == models[i]);
        lemma_materialize_list_extends(rest, i - 1, reg, done_rest, w);
        assert(seq![w0] + done_rest.push(w) =~= (seq![w0] + done_rest).push(w));
    }
}

/// When a prefix materializes and the next entry's value does not, the whole
/// entry list does not.
proof fn lemma_materialize_entries_fails(
    models: Seq<(Seq<char>, ProxyVal)>,
    i: int,
    reg: HandleTable<EngineValue>,
)
    requires
        0 <= i < models.len(),
        spec_materialize(models[i].1, reg) is None,
    ensures
        spec_materialize_entries(models, reg) is None,
    decreases i,
{
    if models.len() > 0 && i > 0 {
        lemma_materialize_entries_fails(models.drop_first(), i - 1, reg);
    }
}

/// When a prefix materializes to `done` and the next entry's value
/// materializes, the one-longer prefix materializes to `done` plus that
/// entry.
proof fn lemma_materialize_entries_extends(
    models: Seq<(Seq<char>, ProxyVal)>,
    i: int,
    reg: HandleTable<EngineValue>,
    done: Seq<(Seq<char>, EngineVal)>,
    e: (Seq<char>, EngineVal),
)
    requires
        0 <= i < models.len(),
        spec_materialize_entries(models.take(i), reg) == Some(done),
        models[i].0 == e.0,
        spec_materialize(models[i].1, reg) == Some(e.1),
    ensures
        spec_materialize_entries(models.take(i + 1), reg) == Some(done.push(e)),
    decreases i,
{
    if i == 0 {
        assert(models.take(1)[0] == models[0]);
        assert(models.take(1).drop_first() =~= Seq::<(Seq<char>, ProxyVal)>::empty());
        assert(models.take(0) =~= Seq::<(Seq<char>, ProxyVal)>::empty());
        assert(done =~= Seq::<(Seq<char>, EngineVal)>::empty());
        assert(seq![(models[0].0, e.1)] + Seq::<(Seq<char>, EngineVal)>::empty() =~= done.push(e));
    } else {
        let m0 = models[0];
        let rest = models.drop_first();
        assert(models.take(i)[0] == m0);
        assert(models.take(i + 1)[0] == m0);
        assert(models.take(i).drop_first() =~= rest.take(i - 1));
        assert(models.take(i + 1).drop_first() =~= rest.take(i));
        let w0 = spec_materialize(m0.1, reg)->0;
        let done_rest = spec_materialize_entries(rest.take(i - 1), reg)->0;
        assert(done == seq![(m0.0, w0)] + done_rest);
        assert(rest[i - 1] == models[i]);
        lemma_materialize_entries_extends(rest, i - 1, reg, done_rest, e);
        assert(seq![(m0.0, w0)] + done_rest.push(e) =~= (seq![(m0.0, w0)] + done_rest).push(e));
    }
}

/// Law: conversion round-trips. Materializing the proxy that `convert`
/// produced yields a value that stands for the converted value — primitives
/// by copy, compounds through the handle persisted for them, a bridged
/// promise through its container handle. For a promise that was bridged
/// before, the premise is that its container handle is still live and intact:
/// handle lifetime is the caller's contract.
pub proof fn lemma_materialize_convert(
    e0: ScriptEngine,
    e1: ScriptEngine,
    m: EngineVal,
    p: JSJavaProxy,
)
    requires
        ScriptEngine::convert_post(e0, e1, m, Converted::Done(p)),
        m matches EngineVal::Promise(pidx) ==> 0 <= pidx < e0.proms().len() && match e0.proms()[
            pidx
        ].container {
            Some(h) => e0.reg().contains(h) && e0.reg().at(h).ev() == EngineVal::Promise(pidx),
            None => true,
        },
    ensures
        spec_materialize(p.dv(), e1.reg()) == Some(m),
{
    match m {
        EngineVal::Promise(pidx) => {
            let pd = e0.proms()[pidx];
            let c = e1.proms()[pidx].container->0;
            assert(e1.reg().contains(c) && e1.reg().at(c).ev() == EngineVal::Promise(pidx));
        },
        _ => {},
    }
}

/// Law: a bridging finished with future id `fid` also round-trips: the future
/// proxy restores to the same promise, through the container that the first
/// conversion persisted.
pub proof fn lemma_materialize_finished_bridge(
    e0: ScriptEngine,
    e1: ScriptEngine,
    pidx: int,
    pending: PendingBridge,
    fid: i32,
    p: JSJavaProxy,
)
    requires
        0 <= pidx < e0.proms().len(),
        e0.proms()[pidx].future_id is None,
        e0.proms()[pidx].container is None,
        ScriptEngine::bridge_post(e0, e1, pidx, Converted::NeedsFuture(pending)),
        p.dv() == ProxyVal::Future(fid, pending.container),
    ensures
        spec_materialize(p.dv(), e1.reg()) == Some(EngineVal::Promise(pidx)),
{
}

/// Law: bridging is idempotent. Once a promise carries a future id — here:
/// installed by `finish_bridge` after a first conversion asked for one — any
/// later conversion of the same promise instance yields the identical future
/// id, allocates nothing, and completes at once.
pub proof fn lemma_bridge_idempotence(
    e0: ScriptEngine,
    e1: ScriptEngine,
    e2: ScriptEngine,
    e3: ScriptEngine,
    pidx: int,
    r1: Converted,
    fid: i32,
    r2: Converted,
)
    requires
        0 <= pidx < e0.proms().len(),
        e0.proms()[pidx].future_id is None,
        // First conversion of the promise.
        ScriptEngine::bridge_post(e0, e1, pidx, r1),
        // The host allocated `fid`; `finish_bridge` installed it.
        e2.proms().len() == e1.proms().len(),
        attach_step(
            e1.proms()[pidx],
            e2.proms()[pidx],
            fid,
            e1.job_queue(),
            e2.job_queue(),
        ),
        e2.reg() == e1.reg(),
        // Second conversion of the same promise instance.
        ScriptEngine::bridge_post(e2, e3, pidx, r2),
    ensures
        r1 is NeedsFuture,
        r2 matches Converted::Done(p) && p.dv() == ProxyVal::Future(
            fid,
            e2.proms()[pidx].container->0,
        ),
        e3.proms()[pidx].future_id == Some(fid),
        e3.reg() == e2.reg(),
{
}

/// Persisting a well-formed value preserves the engine's well-formedness.
proof fn lemma_wf_after_persist(pre: ScriptEngine, post: ScriptEngine, m: EngineVal, h: u64)
    requires
        pre.wf(),
        post.reg().wf(),
        val_wf(m, pre.n_promises()),
        persist_val_step(pre.reg(), post.reg(), m, h),
        ScriptEngine::only_registry_changed(pre, post),
    ensures
        post.wf(),
{
    assert forall|h2: u64| post.reg().contains(h2) implies val_wf(
        #[trigger] post.reg().at(h2).ev(),
        post.n_promises(),
    ) by {
        if h2 != h {
            assert(pre.reg().contains(h2));
            assert(post.reg().at(h2) == pre.reg().at(h2));
        }
    }
}

} // verus!
