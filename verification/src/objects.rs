//! Accessors for engine-owned objects that have crossed the boundary as
//! handles: size, key membership, reading, writing and removing properties,
//! and listing keys. Reading a property converts its value, so a promise
//! stored in an object comes back as a bridged future proxy, never as an
//! inline copy.

use vstd::prelude::*;

use crate::convert::{ConversionError, Converted};
use crate::engine::{
    entries_wf, ev_entries, find_key, key_index, lemma_entries_wf_index, lemma_ev_entries, val_wf,
    EngineVal, EngineValue, ScriptEngine,
};
use crate::proxy::{JSJavaProxy, ProxyVal};

verus! {

/// Create a fresh, empty engine object and hand out its handle.
pub fn object_create(e: &mut ScriptEngine) -> (h: u64)
    requires
        old(e).wf(),
        old(e).reg().has_room(),
    ensures
        final(e).wf(),
        final(e).reg().arena_len() <= old(e).reg().arena_len() + 1,
        ScriptEngine::only_registry_changed(*old(e), *final(e)),
        crate::convert::persist_val_step(
            old(e).reg(),
            final(e).reg(),
            EngineVal::Object(Seq::empty()),
            h,
        ),
{
    let v = EngineValue::Object(Vec::new());
    proof {
        assert(ev_entries(Seq::<(String, EngineValue)>::empty()) =~= Seq::<
            (Seq<char>, EngineVal),
        >::empty());
    }
    let h = e.registry.persist(v);
    proof {
        lemma_registry_only_wf(*old(e), *e);
    }
    h
}

/// Release an object handle: `true` exactly when the handle was live. Double
/// close is detected, not undefined.
pub fn object_close(e: &mut ScriptEngine, h: u64) -> (r: bool)
    requires
        old(e).wf(),
    ensures
        final(e).wf(),
        ScriptEngine::only_registry_changed(*old(e), *final(e)),
        r == old(e).reg().contains(h),
        crate::registry::HandleTable::close_step(old(e).reg(), final(e).reg(), h),
{
    let r = e.registry.close(h);
    proof {
        lemma_registry_only_wf(*old(e), *e);
    }
    r.is_some()
}

/// Number of properties of the object behind `h`, or -1 when the handle is
/// dead, does not refer to an object, or the count does not fit the result.
pub fn object_size(e: &ScriptEngine, h: u64) -> (r: i32)
    requires
        e.wf(),
    ensures
        ({
            let reg = e.reg();
            if reg.contains(h) {
                match reg.at(h).ev() {
                    EngineVal::Object(entries) => if entries.len() <= i32::MAX {
                        r == entries.len()
                    } else {
                        r == -1
                    },
                    _ => r == -1,
                }
            } else {
                r == -1
            }
        }),
{
    match e.registry.restore(h) {
        Some(v) => match v {
            EngineValue::Object(entries) => {
                proof {
                    lemma_ev_entries(entries@);
                }
                if entries.len() <= i32::MAX as usize {
                    entries.len() as i32
                } else {
                    -1
                }
            },
            _ => -1,
        },
        None => -1,
    }
}

/// Whether the object behind `h` has a property named by `key`: `true`
/// exactly when the handle is live, refers to an object, the key is a string,
/// and a property of that name exists.
pub fn object_contains_key(e: &ScriptEngine, h: u64, key: &JSJavaProxy) -> (r: bool)
    requires
        e.wf(),
    ensures
        r == ({
            &&& e.reg().contains(h)
            &&& e.reg().at(h).ev() matches EngineVal::Object(entries)
            &&& key.dv() matches ProxyVal::Str(ks)
            &&& key_index(entries, ks) >= 0
        }),
{
    match e.registry.restore(h) {
        Some(v) => match v {
            EngineValue::Object(entries) => match key {
                JSJavaProxy::String(ks) => find_key(entries, ks).is_some(),
                _ => false,
            },
            _ => false,
        },
        None => false,
    }
}

impl ScriptEngine {
    /// Relation between the engine before and after `object_get_value(h,
    /// key)` returned `r`: a dead handle, a non-object, and a non-string key
    /// are each reported exactly; a missing property reads as `Null`; a
    /// present property is converted — so a promise-valued property comes
    /// back through the bridge.
    pub open spec fn get_value_post(
        pre: Self,
        post: Self,
        h: u64,
        key: ProxyVal,
        r: Result<Converted, ConversionError>,
    ) -> bool {
        if !pre.reg().contains(h) {
            r == Err::<Converted, ConversionError>(ConversionError::UnknownHandle(h)) && post
                == pre
        } else {
            match pre.reg().at(h).ev() {
                EngineVal::Object(entries) => match key {
                    ProxyVal::Str(ks) => {
                        let k = key_index(entries, ks);
                        if k < 0 {
                            &&& r matches Ok(Converted::Done(p))
                            &&& p.dv() == ProxyVal::Null
                            &&& post == pre
                        } else {
                            &&& r matches Ok(cv)
                            &&& Self::convert_post(pre, post, entries[k].1, cv)
                        }
                    },
                    _ => r == Err::<Converted, ConversionError>(ConversionError::InvalidKey)
                        && post == pre,
                },
                _ => r == Err::<Converted, ConversionError>(ConversionError::NotAnObject(h))
                    && post == pre,
            }
        }
    }
}

/// Read one property of the object behind `h` and convert it for the
/// boundary. A missing property reads as `Null`, never as an error.
pub fn object_get_value(e: &mut ScriptEngine, h: u64, key: &JSJavaProxy) -> (r: Result<
    Converted,
    ConversionError,
>)
    requires
        old(e).wf(),
        old(e).reg().has_room(),
    ensures
        final(e).wf(),
        final(e).reg().arena_len() <= old(e).reg().arena_len() + 1,
        ScriptEngine::get_value_post(*old(e), *final(e), h, key.dv(), r),
{
    let field: EngineValue = match e.registry.restore(h) {
        None => {
            return Err(ConversionError::UnknownHandle(h));
        },
        Some(v) => match v {
            EngineValue::Object(entries) => match key {
                JSJavaProxy::String(ks) => match find_key(entries, ks) {
                    None => {
                        return Ok(Converted::Done(JSJavaProxy::Null));
                    },
                    Some(i) => {
                        proof {
                            lemma_ev_entries(entries@);
                        }
                        entries[i].1.clone()
                    },
                },
                _ => {
                    return Err(ConversionError::InvalidKey);
                },
            },
            _ => {
                return Err(ConversionError::NotAnObject(h));
            },
        },
    };
    proof {
        let n = old(e).n_promises();
        let m = old(e).reg().at(h).ev();
        let entries_m = m->Object_0;
        let ks = key.dv()->Str_0;
        let k = key_index(entries_m, ks);
        assert(val_wf(m, n));
        lemma_entries_wf_index(entries_m, n);
        assert(val_wf(entries_m[k].1, n));
    }
    Ok(e.convert(&field))
}

/// Write one property of the object behind `h`: the proxy value is
/// materialized and stored under the key, replacing the first property of
/// that name or appending a new one. `false` reports a dead handle, a
/// non-object, a non-string key, or a value that does not materialize;
/// nothing is stored then.
pub fn object_set_value(e: &mut ScriptEngine, h: u64, key: &JSJavaProxy, value: JSJavaProxy) -> (r:
    bool)
    requires
        old(e).wf(),
    ensures
        final(e).wf(),
        final(e).n_promises() == old(e).n_promises(),
        final(e).job_queue() == old(e).job_queue(),
        final(e).globals_view() == old(e).globals_view(),
        crate::convert::proms_future_only(old(e).proms(), final(e).proms()),
        r == ({
            &&& old(e).reg().contains(h)
            &&& old(e).reg().at(h).ev() is Object
            &&& key.dv() is Str
            &&& crate::convert::spec_materialize(value.dv(), old(e).reg()) is Some
        }),
        !r ==> final(e).reg() == old(e).reg(),
        r ==> ({
            let entries = old(e).reg().at(h).ev()->Object_0;
            let ks = key.dv()->Str_0;
            let k = key_index(entries, ks);
            let w = crate::convert::spec_materialize(value.dv(), old(e).reg())->0;
            let updated = if k >= 0 {
                entries.update(k, (ks, w))
            } else {
                entries.push((ks, w))
            };
            &&& final(e).reg().contains(h)
            &&& final(e).reg().at(h).ev() == EngineVal::Object(updated)
            &&& forall|h2: u64|
                h2 != h ==> #[trigger] final(e).reg().contains(h2) == old(e).reg().contains(h2)
            &&& forall|h2: u64|
                h2 != h && old(e).reg().contains(h2) ==> #[trigger] final(e).reg().at(h2) == old(
                    e,
                ).reg().at(h2)
        }),
{
    let ok = match e.registry.restore(h) {
        Some(v) => match v {
            EngineValue::Object(_) => true,
            _ => false,
        },
        None => false,
    };
    let ks = match key {
        JSJavaProxy::String(ks) => ks,
        _ => {
            return false;
        },
    };
    if !ok {
        return false;
    }
    let w = match e.materialize(&value) {
        Ok(w) => w,
        Err(_) => {
            return false;
        },
    };
    let ghost mid = *e;
    let mut entries = match e.registry.restore(h) {
        Some(v) => match v.clone() {
            EngineValue::Object(en) => en,
            _ => vstd::pervasive::unreached(),
        },
        None => vstd::pervasive::unreached(),
    };
    let ghost old_exec = entries@;
    let ghost models = ev_entries(entries@);
    proof {
        lemma_ev_entries(entries@);
    }
    let nm = ks.clone();
    match find_key(&entries, ks) {
        Some(i) => {
            entries[i] = (nm, w);
        },
        None => {
            entries.push((nm, w));
        },
    }
    proof {
        lemma_ev_entries(entries@);
        let ks_m = key.dv()->Str_0;
        let k = key_index(models, ks_m);
        let w_m = crate::convert::spec_materialize(value.dv(), old(e).reg())->0;
        let updated = if k >= 0 {
            models.update(k, (ks_m, w_m))
        } else {
            models.push((ks_m, w_m))
        };
        assert(ev_entries(entries@) =~= updated);
    }
    let new_obj = EngineValue::Object(entries);
    proof {
        let n = old(e).n_promises();
        assert(val_wf(old(e).reg().at(h).ev(), n));
        lemma_entries_wf_index(models, n);
        lemma_entries_wf_index(new_obj.ev()->Object_0, n);
    }
    let replaced = e.registry.replace(h, new_obj);
    proof {
        lemma_registry_only_wf(mid, *e);
    }
    true
}

/// Remove the first property named by `key` from the object behind `h`.
/// `true` exactly when the handle is live, refers to an object, and the key
/// is a string; removing an absent property succeeds and changes nothing.
pub fn object_remove_value(e: &mut ScriptEngine, h: u64, key: &JSJavaProxy) -> (r: bool)
    requires
        old(e).wf(),
    ensures
        final(e).wf(),
        ScriptEngine::only_registry_changed(*old(e), *final(e)),
        r == ({
            &&& old(e).reg().contains(h)
            &&& old(e).reg().at(h).ev() is Object
            &&& key.dv() is Str
        }),
        !r ==> final(e).reg() == old(e).reg(),
        r ==> ({
            let entries = old(e).reg().at(h).ev()->Object_0;
            let ks = key.dv()->Str_0;
            let k = key_index(entries, ks);
            let updated = if k >= 0 {
                entries.remove(k)
            } else {
                entries
            };
            &&& final(e).reg().contains(h)
            &&& final(e).reg().at(h).ev() == EngineVal::Object(updated)
            &&& forall|h2: u64|
                h2 != h ==> #[trigger] final(e).reg().contains(h2) == old(e).reg().contains(h2)
            &&& forall|h2: u64|
                h2 != h && old(e).reg().contains(h2) ==> #[trigger] final(e).reg().at(h2) == old(
                    e,
                ).reg().at(h2)
        }),
{
    let ks = match key {
        JSJavaProxy::String(ks) => ks,
        _ => {
            return false;
        },
    };
    let mut entries = match e.registry.restore(h) {
        Some(v) => match v {
            EngineValue::Object(_) => match v.clone() {
                EngineValue::Object(en) => en,
                _ => vstd::pervasive::unreached(),
            },
            _ => {
                return false;
            },
        },
        None => {
            return false;
        },
    };
    let ghost models = ev_entries(entries@);
    proof {
        lemma_ev_entries(entries@);
    }
    match find_key(&entries, ks) {
        Some(i) => {
            let _ = entries.remove(i);
            proof {
                lemma_ev_entries(entries@);
                let k = key_index(models, key.dv()->Str_0);
                assert(ev_entries(entries@) =~= models.remove(k));
            }
        },
        None => {},
    }
    let new_obj = EngineValue::Object(entries);
    proof {
        let n = old(e).n_promises();
        assert(val_wf(old(e).reg().at(h).ev(), n));
        lemma_entries_wf_index(models, n);
        lemma_entries_wf_index(new_obj.ev()->Object_0, n);
    }
    let _ = e.registry.replace(h, new_obj);
    proof {
        lemma_registry_only_wf(*old(e), *e);
    }
    true
}

/// The keys of an object's entries, as proxy models.
pub open spec fn keys_model(entries: Seq<(Seq<char>, EngineVal)>) -> Seq<ProxyVal> {
    Seq::new(entries.len(), |i: int| ProxyVal::Str(entries[i].0))
}

/// List the property names of the object behind `h` as an inline array of
/// strings, in property order.
pub fn object_key_set(e: &ScriptEngine, h: u64) -> (r: Result<JSJavaProxy, ConversionError>)
    requires
        e.wf(),
    ensures
        ({
            let reg = e.reg();
            if !reg.contains(h) {
                r == Err::<JSJavaProxy, ConversionError>(ConversionError::UnknownHandle(h))
            } else {
                match reg.at(h).ev() {
                    EngineVal::Object(entries) => r matches Ok(p) && p.dv() == ProxyVal::Arr(
                        keys_model(entries),
                    ),
                    _ => r == Err::<JSJavaProxy, ConversionError>(ConversionError::NotAnObject(h)),
                }
            }
        }),
{
    let entries = match e.registry.restore(h) {
        Some(v) => match v {
            EngineValue::Object(en) => en,
            _ => {
                return Err(ConversionError::NotAnObject(h));
            },
        },
        None => {
            return Err(ConversionError::UnknownHandle(h));
        },
    };
    let ghost models = ev_entries(entries@);
    proof {
        lemma_ev_entries(entries@);
    }
    let n = entries.len();
    let mut keys: Vec<JSJavaProxy> = Vec::new();
    let mut i: usize = 0;
    while i < n
        invariant
            i <= n,
            n == entries@.len(),
            models == ev_entries(entries@),
            models.len() == n,
            forall|j: int| 0 <= j < n ==> models[j] == (entries@[j].0@, entries@[j].1.ev()),
            keys@.len() == i,
            forall|j: int| 0 <= j < i ==> #[trigger] keys@[j].dv() == ProxyVal::Str(models[j].0),
        decreases n - i,
    {
        keys.push(JSJavaProxy::String(entries[i].0.clone()));
        i = i + 1;
    }
    let r = JSJavaProxy::Array(keys);
    proof {
        crate::proxy::lemma_dv_list(r->Array_0@);
        assert(crate::proxy::dv_list(r->Array_0@) =~= keys_model(models));
    }
    Ok(r)
}

/// Law: a compound value keeps its reference identity across the boundary.
/// Converting an object that holds a promise among its properties yields a
/// native-object handle — no inline copy — and reading that property later
/// through the handle goes through the bridge: an unbridged promise asks for
/// a future, a bridged one comes back at once as the future proxy with its
/// existing id.
pub proof fn lemma_nested_promise_bridged(
    e0: ScriptEngine,
    e1: ScriptEngine,
    e2: ScriptEngine,
    entries: Seq<(Seq<char>, EngineVal)>,
    p: JSJavaProxy,
    h: u64,
    ks: Seq<char>,
    k: int,
    q: int,
    r2: Result<Converted, ConversionError>,
)
    requires
        ScriptEngine::convert_post(e0, e1, EngineVal::Object(entries), Converted::Done(p)),
        p.dv() == ProxyVal::NativeObj(h),
        k == key_index(entries, ks),
        0 <= k < entries.len(),
        entries[k].1 == EngineVal::Promise(q),
        0 <= q < e1.proms().len(),
        ScriptEngine::get_value_post(e1, e2, h, ProxyVal::Str(ks), r2),
    ensures
        e1.reg().contains(h),
        e1.reg().at(h).ev() == EngineVal::Object(entries),
        match e1.proms()[q].future_id {
            None => r2 matches Ok(Converted::NeedsFuture(pending)) && pending.pidx == q,
            Some(fid) => r2 matches Ok(Converted::Done(fp)) && fp.dv() matches ProxyVal::Future(
                f2,
                _,
            ) && f2 == fid,
        },
{
}

/// A change that touches the registry alone preserves the engine's
/// well-formedness, provided every live handle still holds a well-formed
/// value.
pub(crate) proof fn lemma_registry_only_wf(pre: ScriptEngine, post: ScriptEngine)
    requires
        pre.wf(),
        post.reg().wf(),
        ScriptEngine::only_registry_changed(pre, post),
        forall|h: u64|
            post.reg().contains(h) ==> val_wf(#[trigger] post.reg().at(h).ev(), pre.n_promises()),
    ensures
        post.wf(),
{
}

} // verus!
