//! The promise–future bridge: the settlement callbacks that turn one script
//! promise settlement into exactly one host completion event, the container
//! records for promises the host creates itself, and the host's future
//! registry with its error signals.

use vstd::prelude::*;

use crate::codec::{encode, spec_encode};
use crate::convert::Converted;
use crate::engine::{
    key_index, lemma_ev_entries, lemma_key_index, val_wf, EngineVal, EngineValue, PromiseState,
    ScriptEngine, SettleEvent,
};
use crate::proxy::{JSJavaProxy, ProxyVal};

verus! {

/// One level of the "boxed result" convention: when a settled value is an
/// object whose `value` property is present and not undefined, exactly that
/// one level is unwrapped before conversion; any other value converts as it
/// is.
pub open spec fn unwrap_boxed(v: EngineVal) -> EngineVal {
    match v {
        EngineVal::Object(entries) => {
            let k = key_index(entries, "value"@);
            if k >= 0 && !(entries[k].1 is Undefined) {
                entries[k].1
            } else {
                v
            }
        },
        _ => v,
    }
}

/// The exception proxy that completes a rejection: the rejection value's
/// message and stacktrace where it has them, its text where it is a string,
/// and an empty message otherwise.
pub open spec fn rejection_exc(v: EngineVal) -> ProxyVal {
    match v {
        EngineVal::Str(m) => ProxyVal::Exc(m, Seq::empty()),
        EngineVal::Thrown(m, s) => ProxyVal::Exc(m, s),
        _ => ProxyVal::Exc(Seq::empty(), Seq::empty()),
    }
}

/// What a settlement callback invoked with `arg` must report: `None` when it
/// sees a promise that is still pending (a neutral snapshot, not an error),
/// the value to convert on the resolution path, or the value whose exception
/// form completes the rejection path.
pub enum SettleSource {
    PendingSnapshot,
    Resolve(EngineVal),
    Reject(EngineVal),
}

/// The settlement source for callback role `reject` and argument `arg`: a
/// promise argument is read through its state; any other argument is the
/// settled value itself, handled according to the callback's role.
pub open spec fn settlement_source(
    proms_states: Seq<crate::engine::PromiseData>,
    reject: bool,
    arg: EngineVal,
) -> SettleSource {
    match arg {
        EngineVal::Promise(q) => match proms_states[q].state {
            PromiseState::Pending => SettleSource::PendingSnapshot,
            PromiseState::Resolved(v) => SettleSource::Resolve(unwrap_boxed(v.ev())),
            PromiseState::Rejected(v) => SettleSource::Reject(v.ev()),
        },
        _ => if reject {
            SettleSource::Reject(arg)
        } else {
            SettleSource::Resolve(unwrap_boxed(arg))
        },
    }
}

/// One completion call to the host: which context and future it completes,
/// whether it rejects, the completed proxy value, and its serialized form as
/// it crosses the boundary.
#[derive(Debug)]
pub struct Completion {
    pub context_ptr: u64,
    pub reject: bool,
    pub future_id: i32,
    pub payload: JSJavaProxy,
    pub body: Vec<u8>,
}

/// One settlement callback of the bridge: the host context, the future it
/// completes, and its role — the same rejection callback serves the rejection
/// path of `then` and `catch`, so both paths converge on one handler.
pub struct JavaPromise {
    pub context_ptr: u64,
    pub completable_future_ptr: i32,
    pub reject: bool,
}

impl JavaPromise {
    pub fn new(context_ptr: u64, completable_future_ptr: i32, reject: bool) -> (jp: Self)
        ensures
            jp.context_ptr == context_ptr,
            jp.completable_future_ptr == completable_future_ptr,
            jp.reject == reject,
    {
        Self { context_ptr, completable_future_ptr, reject }
    }

    /// Relation between the engine before and after this callback ran with
    /// `arg`, producing completion `c`: a pending snapshot completes with
    /// `Null`; a rejection completes with the rejection's exception form and
    /// touches nothing; a resolution converts the (unboxed) settled value —
    /// except that a value which is itself a promise cannot be bridged
    /// synchronously from inside the settlement path and is completed as a
    /// conversion-failure exception, so the host never hangs.
    pub open spec fn call_post(
        self,
        pre: ScriptEngine,
        post: ScriptEngine,
        arg: EngineVal,
        c: Completion,
    ) -> bool {
        &&& c.context_ptr == self.context_ptr
        &&& c.reject == self.reject
        &&& c.future_id == self.completable_future_ptr
        &&& c.body@ == spec_encode(c.payload.dv())
        &&& match settlement_source(pre.proms(), self.reject, arg) {
            SettleSource::PendingSnapshot => post == pre && c.payload.dv() == ProxyVal::Null,
            SettleSource::Reject(v) => post == pre && c.payload.dv() == rejection_exc(v),
            SettleSource::Resolve(src) => match src {
                EngineVal::Promise(_) => post == pre && c.payload.dv() matches ProxyVal::Exc(_, _),
                _ => ScriptEngine::convert_post(pre, post, src, Converted::Done(c.payload)),
            },
        }
    }

    /// Run this settlement callback: compute and serialize the completion the
    /// host receives. Each call produces exactly one completion.
    pub fn call(&self, e: &mut ScriptEngine, arg: &EngineValue) -> (c: Completion)
        requires
            old(e).wf(),
            val_wf(arg.ev(), old(e).n_promises()),
            old(e).reg().has_room(),
        ensures
            final(e).wf(),
            self.call_post(*old(e), *final(e), arg.ev(), c),
    {
        let source: SettleArg = match arg {
            EngineValue::Promise(q) => {
                match &e.promises[*q].state {
                    PromiseState::Pending => SettleArg::PendingSnapshot,
                    PromiseState::Resolved(v) => SettleArg::Resolve(unwrap_value(v)),
                    PromiseState::Rejected(v) => SettleArg::Reject(v.clone()),
                }
            },
            _ => if self.reject {
                SettleArg::Reject(arg.clone())
            } else {
                SettleArg::Resolve(unwrap_value(arg))
            },
        };
        let payload: JSJavaProxy = match source {
            SettleArg::PendingSnapshot => JSJavaProxy::Null,
            SettleArg::Reject(v) => rejection_payload(&v),
            SettleArg::Resolve(src) => {
                proof {
                    lemma_unwrap_boxed_wf(*old(e), arg.ev());
                }
                match &src {
                    EngineValue::Promise(_) => JSJavaProxy::Exception(
                        String::new(),
                        String::new(),
                    ),
                    _ => {
                        match e.convert(&src) {
                            Converted::Done(p) => p,
                            Converted::NeedsFuture(_) => vstd::pervasive::unreached(),
                        }
                    },
                }
            },
        };
        let body = encode(&payload);
        Completion {
            context_ptr: self.context_ptr,
            reject: self.reject,
            future_id: self.completable_future_ptr,
            payload,
            body,
        }
    }
}

/// The record a host-created promise hands back across the boundary: the
/// promise it controls and the handle under which it is persisted.
pub struct PromiseContainer {
    pub promise: usize,
    pub handle: u64,
}

/// Create a new engine promise on the host's behalf: the host future `cf_ptr`
/// is stored on the promise as its hidden property — so converting the
/// promise later reuses it — and the promise is persisted so the host can
/// resolve or reject it through the returned container.
pub fn promise_create(e: &mut ScriptEngine, cf_ptr: i32) -> (cf: PromiseContainer)
    requires
        old(e).wf(),
        old(e).reg().has_room(),
    ensures
        final(e).wf(),
        final(e).reg().arena_len() <= old(e).reg().arena_len() + 1,
        cf.promise as int == old(e).n_promises(),
        final(e).n_promises() == old(e).n_promises() + 1,
        forall|j: int|
            0 <= j < old(e).n_promises() ==> #[trigger] final(e).proms()[j] == old(e).proms()[j],
        ({
            let pd = final(e).proms()[cf.promise as int];
            &&& pd.state is Pending
            &&& pd.future_id == Some(cf_ptr)
            &&& pd.container == Some(cf.handle)
            &&& !pd.attached
            &&& !pd.fired
        }),
        crate::convert::persist_val_step(
            old(e).reg(),
            final(e).reg(),
            EngineVal::Promise(cf.promise as int),
            cf.handle,
        ),
        final(e).job_queue() == old(e).job_queue(),
        final(e).globals_view() == old(e).globals_view(),
{
    let pidx = e.new_promise();
    e.promises[pidx].future_id = Some(cf_ptr);
    let handle = e.registry.persist(EngineValue::Promise(pidx));
    e.promises[pidx].container = Some(handle);
    proof {
        assert forall|h2: u64| final(e).reg().contains(h2) implies val_wf(
            #[trigger] final(e).reg().at(h2).ev(),
            final(e).n_promises(),
        ) by {
            if h2 != handle {
                assert(old(e).reg().contains(h2));
                assert(final(e).reg().at(h2) == old(e).reg().at(h2));
                crate::engine::lemma_val_wf_grows(
                    old(e).reg().at(h2).ev(),
                    old(e).n_promises(),
                    final(e).n_promises(),
                );
            }
        }
        assert forall|k: int| 0 <= k < final(e).job_queue().len() implies val_wf(
            #[trigger] final(e).job_queue()[k].value.ev(),
            final(e).n_promises(),
        ) by {
            crate::engine::lemma_val_wf_grows(
                final(e).job_queue()[k].value.ev(),
                old(e).n_promises(),
                final(e).n_promises(),
            );
        }
        assert forall|g: int| 0 <= g < final(e).globals_view().len() implies val_wf(
            #[trigger] final(e).globals_view()[g].1.ev(),
            final(e).n_promises(),
        ) by {
            crate::engine::lemma_val_wf_grows(
                final(e).globals_view()[g].1.ev(),
                old(e).n_promises(),
                final(e).n_promises(),
            );
        }
        assert forall|i: int| 0 <= i < final(e).n_promises() implies match (#[trigger] final(e).proms()[i]).state {
            PromiseState::Pending => true,
            PromiseState::Resolved(v) => val_wf(v.ev(), final(e).n_promises()),
            PromiseState::Rejected(v) => val_wf(v.ev(), final(e).n_promises()),
        } by {
            if i < old(e).n_promises() {
                match old(e).proms()[i].state {
                    PromiseState::Resolved(v) => crate::engine::lemma_val_wf_grows(
                        v.ev(),
                        old(e).n_promises(),
                        final(e).n_promises(),
                    ),
                    PromiseState::Rejected(v) => crate::engine::lemma_val_wf_grows(
                        v.ev(),
                        old(e).n_promises(),
                        final(e).n_promises(),
                    ),
                    PromiseState::Pending => {},
                }
            }
        }
    }
    PromiseContainer { promise: pidx, handle }
}

/// The host resolves a promise it created: the proxy value is materialized
/// and the promise settles with it, exactly as a script-side resolution
/// would.
pub fn promise_resolve(e: &mut ScriptEngine, cf: &PromiseContainer, value: JSJavaProxy) -> (r:
    Result<bool, crate::convert::ConversionError>)
    requires
        old(e).wf(),
        cf.promise < old(e).n_promises(),
    ensures
        final(e).wf(),
        final(e).n_promises() == old(e).n_promises(),
        match r {
            Ok(b) => {
                &&& b
                &&& crate::convert::spec_materialize(value.dv(), old(e).reg()) matches Some(w)
                &&& (old(e).proms()[cf.promise as int].state is Pending
                    ==> match final(e).proms()[cf.promise as int].state {
                    PromiseState::Resolved(v) => v.ev() == w,
                    _ => false,
                })
            },
            Err(_) => crate::convert::spec_materialize(value.dv(), old(e).reg()) is None,
        },
{
    let w = match e.materialize(&value) {
        Ok(w) => w,
        Err(err) => {
            return Err(err);
        },
    };
    let _ = e.settle_promise(cf.promise, true, w);
    Ok(true)
}

/// The host rejects a promise it created: the proxy value is materialized
/// and the promise settles rejected with it.
pub fn promise_reject(e: &mut ScriptEngine, cf: &PromiseContainer, value: JSJavaProxy) -> (r:
    Result<bool, crate::convert::ConversionError>)
    requires
        old(e).wf(),
        cf.promise < old(e).n_promises(),
    ensures
        final(e).wf(),
        final(e).n_promises() == old(e).n_promises(),
        match r {
            Ok(b) => {
                &&& b
                &&& crate::convert::spec_materialize(value.dv(), old(e).reg()) matches Some(w)
                &&& (old(e).proms()[cf.promise as int].state is Pending
                    ==> match final(e).proms()[cf.promise as int].state {
                    PromiseState::Rejected(v) => v.ev() == w,
                    _ => false,
                })
            },
            Err(_) => crate::convert::spec_materialize(value.dv(), old(e).reg()) is None,
        },
{
    let w = match e.materialize(&value) {
        Ok(w) => w,
        Err(err) => {
            return Err(err);
        },
    };
    let _ = e.settle_promise(cf.promise, false, w);
    Ok(true)
}

/// A completion call that violates the bridge's contract: it names a future
/// the host never allocated, or a future that was completed before. The
/// engine side treats this as a programming-contract violation, not as
/// recoverable state.
#[derive(Debug, PartialEq, Eq)]
pub enum BridgeError {
    UnknownFuture(i32),
    AlreadyCompleted(i32),
}

/// The host's side of the bridge: the futures it has allocated, each
/// completed at most once, with the completion that reached it.
pub struct FutureRegistry {
    futures: Vec<Option<(bool, Vec<u8>)>>,
}

impl FutureRegistry {
    /// Allocated futures, by id: `None` while open, or the completion
    /// (reject flag and serialized value) that closed it.
    pub closed spec fn view(self) -> Seq<Option<(bool, Vec<u8>)>> {
        self.futures@
    }

    pub fn new() -> (f: Self)
        ensures
            f@ == Seq::<Option<(bool, Vec<u8>)>>::empty(),
    {
        FutureRegistry { futures: Vec::new() }
    }

    /// Allocate a new future and return its id.
    pub fn create_future(&mut self) -> (fid: i32)
        requires
            old(self)@.len() < i32::MAX,
        ensures
            fid as int == old(self)@.len(),
            final(self)@ == old(self)@.push(None),
    {
        let fid = self.futures.len() as i32;
        self.futures.push(None);
        fid
    }

    /// Complete a future: exactly once per future. A completion for an
    /// unallocated or already completed future is answered with the matching
    /// error signal and changes nothing.
    pub fn complete(&mut self, reject: bool, fid: i32, body: Vec<u8>) -> (r: Result<
        (),
        BridgeError,
    >)
        ensures
            match r {
                Ok(()) => {
                    &&& 0 <= fid < old(self)@.len()
                    &&& old(self)@[fid as int] is None
                    &&& final(self)@ == old(self)@.update(fid as int, Some((reject, body)))
                },
                Err(e) => final(self)@ == old(self)@ && match e {
                    BridgeError::UnknownFuture(f) => f == fid && !(0 <= fid < old(self)@.len()),
                    BridgeError::AlreadyCompleted(f) => f == fid && 0 <= fid < old(self)@.len()
                        && old(self)@[fid as int] is Some,
                },
            },
    {
        if fid < 0 || fid as usize >= self.futures.len() {
            return Err(BridgeError::UnknownFuture(fid));
        }
        let idx = fid as usize;
        if self.futures[idx].is_some() {
            return Err(BridgeError::AlreadyCompleted(fid));
        }
        self.futures[idx] = Some((reject, body));
        Ok(())
    }
}

/// Law: a bridged, pending promise produces exactly one completion. Settling
/// it queues exactly one callback invocation for its future; settling it
/// again — either way — is inert; and running the callback on the settled
/// value yields one completion for exactly that future, with the resolved
/// integer carried as itself and a rejection string carried as the exception's
/// message.
pub proof fn lemma_settlement_exactly_once(
    e0: ScriptEngine,
    e1: ScriptEngine,
    e2: ScriptEngine,
    e3: ScriptEngine,
    pidx: int,
    fid: i32,
    value: EngineValue,
    resolved: bool,
    r1: bool,
    resolved2: bool,
    value2: EngineValue,
    r2: bool,
    jp: JavaPromise,
    c: Completion,
)
    requires
        0 <= pidx < e0.proms().len(),
        e0.proms()[pidx].state is Pending,
        e0.proms()[pidx].attached,
        !e0.proms()[pidx].fired,
        e0.proms()[pidx].future_id == Some(fid),
        // The promise settles.
        ScriptEngine::settle_post(e0, e1, pidx, resolved, value, r1),
        // Any second settlement of the same promise.
        ScriptEngine::settle_post(e1, e2, pidx, resolved2, value2, r2),
        // The queued callback runs on the settled value.
        jp.completable_future_ptr == fid,
        jp.reject == !resolved,
        jp.call_post(e2, e3, value.ev(), c),
        !(value.ev() is Promise),
    ensures
        r1,
        e1.job_queue() == e0.job_queue().push(SettleEvent { future_id: fid, resolved, value }),
        !r2,
        e2.job_queue() == e1.job_queue(),
        c.future_id == fid,
        c.reject == !resolved,
        forall|i: i32| value.ev() == EngineVal::Int(i) && resolved ==> c.payload.dv()
            == ProxyVal::Int(i),
        forall|m: Seq<char>| value.ev() == EngineVal::Str(m) && !resolved ==> c.payload.dv()
            == ProxyVal::Exc(m, Seq::<char>::empty()),
{
}

/// Law: inspecting an unsettled promise's proxy outside the settlement path
/// is a neutral snapshot: the completion carries `Null`, never an error, and
/// the engine is untouched.
pub proof fn lemma_pending_snapshot(
    jp: JavaPromise,
    e0: ScriptEngine,
    e1: ScriptEngine,
    q: int,
    c: Completion,
)
    requires
        0 <= q < e0.proms().len(),
        e0.proms()[q].state is Pending,
        jp.call_post(e0, e1, EngineVal::Promise(q), c),
    ensures
        c.payload.dv() == ProxyVal::Null,
        e1 == e0,
{
}

/// Owned intermediate of `JavaPromise::call`: the settlement source with the
/// value cloned out of the engine.
enum SettleArg {
    PendingSnapshot,
    Resolve(EngineValue),
    Reject(EngineValue),
}

/// The exception proxy completing a rejection with value `v`.
fn rejection_payload(v: &EngineValue) -> (p: JSJavaProxy)
    ensures
        p.dv() == rejection_exc(v.ev()),
{
    match v {
        EngineValue::Str(m) => JSJavaProxy::Exception(m.clone(), String::new()),
        EngineValue::Thrown(m, s) => JSJavaProxy::Exception(m.clone(), s.clone()),
        _ => JSJavaProxy::Exception(String::new(), String::new()),
    }
}

/// One level of the boxed-result unwrap, as an owned value.
fn unwrap_value(v: &EngineValue) -> (r: EngineValue)
    ensures
        r.ev() == unwrap_boxed(v.ev()),
{
    match v {
        EngineValue::Object(entries) => {
            let needle: String = <String as vstd::string::StringExecFns>::from_str("value");
            proof {
                lemma_ev_entries(entries@);
            }
            match crate::engine::find_key(entries, &needle) {
                Some(i) => {
                    let inner = &entries[i].1;
                    let undef = match inner {
                        EngineValue::Undefined => true,
                        _ => false,
                    };
                    if undef {
                        v.clone()
                    } else {
                        inner.clone()
                    }
                },
                None => v.clone(),
            }
        },
        _ => v.clone(),
    }
}

/// The unwrapped settled value stays well formed: it is either the value
/// itself or one of its object's property values.
proof fn lemma_unwrap_boxed_wf(e: ScriptEngine, arg: EngineVal)
    requires
        e.wf(),
        val_wf(arg, e.n_promises()),
        arg matches EngineVal::Promise(q) ==> 0 <= q < e.n_promises(),
    ensures
        match settlement_source(e.proms(), true, arg) {
            SettleSource::Resolve(src) => val_wf(src, e.n_promises()),
            SettleSource::Reject(v) => val_wf(v, e.n_promises()),
            SettleSource::PendingSnapshot => true,
        },
        match settlement_source(e.proms(), false, arg) {
            SettleSource::Resolve(src) => val_wf(src, e.n_promises()),
            SettleSource::Reject(v) => val_wf(v, e.n_promises()),
            SettleSource::PendingSnapshot => true,
        },
{
    let n = e.n_promises();
    match arg {
        EngineVal::Promise(q) => {
            match e.proms()[q].state {
                PromiseState::Resolved(v) => lemma_unwrap_val_wf(v.ev(), n),
                _ => {},
            }
        },
        _ => lemma_unwrap_val_wf(arg, n),
    }
}

/// `unwrap_boxed` preserves well-formedness.
proof fn lemma_unwrap_val_wf(v: EngineVal, n: int)
    requires
        val_wf(v, n),
    ensures
        val_wf(unwrap_boxed(v), n),
{
    match v {
        EngineVal::Object(entries) => {
            lemma_key_index(entries, "value"@);
            let k = key_index(entries, "value"@);
            if k >= 0 && !(entries[k].1 is Undefined) {
                crate::engine::lemma_entries_wf_index(entries, n);
            }
        },
        _ => {},
    }
}

} // verus!
