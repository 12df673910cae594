//! Accessors for the engine's global object: installing a host value under a
//! global name and reading a global back out. Reading converts the value, so
//! a global promise comes back as a bridged future proxy; writing
//! materializes the proxy, so a host function proxy becomes a callable in the
//! engine.

use vstd::prelude::*;

use crate::convert::{ConversionError, Converted};
use crate::engine::{
    ev_entries, find_key, key_index, lemma_entries_wf_index, lemma_ev_entries, val_wf, EngineVal,
    EngineValue, ScriptEngine,
};
use crate::proxy::{JSJavaProxy, ProxyVal};

verus! {

/// Install a value under a global name: the proxy is materialized and stored,
/// replacing the first global of that name or adding a new one. The reply on
/// success is `Null`; the error says exactly why the value could not be
/// materialized.
pub fn set_global(e: &mut ScriptEngine, name: String, value: JSJavaProxy) -> (r: Result<
    JSJavaProxy,
    ConversionError,
>)
    requires
        old(e).wf(),
    ensures
        final(e).wf(),
        final(e).reg() == old(e).reg(),
        final(e).job_queue() == old(e).job_queue(),
        final(e).n_promises() == old(e).n_promises(),
        crate::convert::proms_future_only(old(e).proms(), final(e).proms()),
        match r {
            Ok(p) => {
                &&& p.dv() == ProxyVal::Null
                &&& crate::convert::spec_materialize(value.dv(), old(e).reg()) matches Some(w)
                &&& ({
                    let globals = ev_entries(old(e).globals_view());
                    let k = key_index(globals, name@);
                    let updated = if k >= 0 {
                        globals.update(k, (name@, w))
                    } else {
                        globals.push((name@, w))
                    };
                    ev_entries(final(e).globals_view()) == updated
                })
            },
            Err(_) => {
                &&& crate::convert::spec_materialize(value.dv(), old(e).reg()) is None
                &&& final(e).globals_view() == old(e).globals_view()
            },
        },
{
    let w = match e.materialize(&value) {
        Ok(w) => w,
        Err(err) => {
            return Err(err);
        },
    };
    let ghost mid = *e;
    let ghost models = ev_entries(e.globals@);
    proof {
        lemma_ev_entries(e.globals@);
    }
    match find_key(&e.globals, &name) {
        Some(i) => {
            e.globals[i] = (name, w);
        },
        None => {
            e.globals.push((name, w));
        },
    }
    proof {
        lemma_ev_entries(e.globals@);
        let k = key_index(models, name@);
        let w_m = crate::convert::spec_materialize(value.dv(), old(e).reg())->0;
        let updated = if k >= 0 {
            models.update(k, (name@, w_m))
        } else {
            models.push((name@, w_m))
        };
        assert(ev_entries(e.globals@) =~= updated);
    }
    Ok(JSJavaProxy::Null)
}

impl ScriptEngine {
    /// Relation between the engine before and after `get_global(name)`
    /// returned `r`: a missing global reads as `Undefined`; a present one is
    /// converted — so a global promise comes back through the bridge.
    pub open spec fn get_global_post(
        pre: Self,
        post: Self,
        name: Seq<char>,
        r: Converted,
    ) -> bool {
        let globals = ev_entries(pre.globals_view());
        let k = key_index(globals, name);
        if k < 0 {
            &&& r matches Converted::Done(p)
            &&& p.dv() == ProxyVal::Undefined
            &&& post == pre
        } else {
            Self::convert_post(pre, post, globals[k].1, r)
        }
    }
}

/// Read a global by name and convert it for the boundary. A missing global
/// reads as `Undefined`, as the script language has it.
pub fn get_global(e: &mut ScriptEngine, name: &String) -> (r: Converted)
    requires
        old(e).wf(),
        old(e).reg().has_room(),
    ensures
        final(e).wf(),
        final(e).reg().arena_len() <= old(e).reg().arena_len() + 1,
        ScriptEngine::get_global_post(*old(e), *final(e), name@, r),
{
    proof {
        lemma_ev_entries(e.globals@);
    }
    let value: EngineValue = match find_key(&e.globals, name) {
        None => {
            return Converted::Done(JSJavaProxy::Undefined);
        },
        Some(i) => e.globals[i].1.clone(),
    };
    proof {
        let n = old(e).n_promises();
        let globals = ev_entries(old(e).globals_view());
        let k = key_index(globals, name@);
        lemma_entries_wf_index(globals, n);
        assert(val_wf(globals[k].1, n));
    }
    e.convert(&value)
}

/// Release a persisted script function's handle: `true` exactly when the
/// handle was live. Double close is detected, not undefined.
pub fn close_function(e: &mut ScriptEngine, h: u64) -> (r: bool)
    requires
        old(e).wf(),
    ensures
        final(e).wf(),
        ScriptEngine::only_registry_changed(*old(e), *final(e)),
        r == old(e).reg().contains(h),
        crate::registry::HandleTable::close_step(old(e).reg(), final(e).reg(), h),
{
    let r = e.registry.close(h);
    proof {
        crate::objects::lemma_registry_only_wf(*old(e), *e);
    }
    r.is_some()
}

} // verus!
