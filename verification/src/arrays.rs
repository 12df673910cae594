//! Accessors for engine-owned arrays that have crossed the boundary as
//! handles: size, reading, writing, inserting and removing elements. Reading
//! an element converts it, so a promise stored in an array comes back as a
//! bridged future proxy.

use vstd::prelude::*;

use crate::convert::{ConversionError, Converted};
use crate::engine::{
    ev_list, lemma_ev_list, lemma_list_wf_index, val_wf, EngineVal, EngineValue, ScriptEngine,
};
use crate::objects::lemma_registry_only_wf;
use crate::proxy::JSJavaProxy;

verus! {

/// Create a fresh, empty engine array and hand out its handle.
pub fn array_create(e: &mut ScriptEngine) -> (h: u64)
    requires
        old(e).wf(),
        old(e).reg().has_room(),
    ensures
        final(e).wf(),
        final(e).reg().arena_len() <= old(e).reg().arena_len() + 1,
        ScriptEngine::only_registry_changed(*old(e), *final(e)),
        crate::convert::persist_val_step(
            old(e).reg(),
            final(e).reg(),
            EngineVal::Array(Seq::empty()),
            h,
        ),
{
    let v = EngineValue::Array(Vec::new());
    proof {
        assert(ev_list(Seq::<EngineValue>::empty()) =~= Seq::<EngineVal>::empty());
    }
    let h = e.registry.persist(v);
    proof {
        lemma_registry_only_wf(*old(e), *e);
    }
    h
}

/// Release an array handle: `true` exactly when the handle was live. Double
/// close is detected, not undefined.
pub fn array_close(e: &mut ScriptEngine, h: u64) -> (r: bool)
    requires
        old(e).wf(),
    ensures
        final(e).wf(),
        ScriptEngine::only_registry_changed(*old(e), *final(e)),
        r == old(e).reg().contains(h),
        crate::registry::HandleTable::close_step(old(e).reg(), final(e).reg(), h),
{
    let r = e.registry.close(h);
    proof {
        lemma_registry_only_wf(*old(e), *e);
    }
    r.is_some()
}

/// Number of elements of the array behind `h`, or -1 when the handle is dead,
/// does not refer to an array, or the count does not fit the result.
pub fn array_size(e: &ScriptEngine, h: u64) -> (r: i32)
    requires
        e.wf(),
    ensures
        ({
            let reg = e.reg();
            if reg.contains(h) {
                match reg.at(h).ev() {
                    EngineVal::Array(items) => if items.len() <= i32::MAX {
                        r == items.len()
                    } else {
                        r == -1
                    },
                    _ => r == -1,
                }
            } else {
                r == -1
            }
        }),
{
    match e.registry.restore(h) {
        Some(v) => match v {
            EngineValue::Array(items) => {
                proof {
                    lemma_ev_list(items@);
                }
                if items.len() <= i32::MAX as usize {
                    items.len() as i32
                } else {
                    -1
                }
            },
            _ => -1,
        },
        None => -1,
    }
}

impl ScriptEngine {
    /// Relation between the engine before and after `array_get(h, index)`
    /// returned `r`: a dead handle and a non-array are reported exactly; an
    /// index outside the array reads as `Undefined`; an element inside it is
    /// converted — so a promise-valued element comes back through the bridge.
    pub open spec fn array_get_post(
        pre: Self,
        post: Self,
        h: u64,
        index: int,
        r: Result<Converted, ConversionError>,
    ) -> bool {
        if !pre.reg().contains(h) {
            r == Err::<Converted, ConversionError>(ConversionError::UnknownHandle(h)) && post
                == pre
        } else {
            match pre.reg().at(h).ev() {
                EngineVal::Array(items) => if 0 <= index < items.len() {
                    r matches Ok(cv) && Self::convert_post(pre, post, items[index], cv)
                } else {
                    r matches Ok(Converted::Done(p)) && p.dv() == crate::proxy::ProxyVal::Undefined
                        && post == pre
                },
                _ => r == Err::<Converted, ConversionError>(ConversionError::NotAnArray(h)) && post
                    == pre,
            }
        }
    }
}

/// Read one element of the array behind `h` and convert it for the boundary.
/// An index outside the array reads as `Undefined`, as the script language
/// has it.
pub fn array_get(e: &mut ScriptEngine, h: u64, index: i32) -> (r: Result<
    Converted,
    ConversionError,
>)
    requires
        old(e).wf(),
        old(e).reg().has_room(),
    ensures
        final(e).wf(),
        final(e).reg().arena_len() <= old(e).reg().arena_len() + 1,
        ScriptEngine::array_get_post(*old(e), *final(e), h, index as int, r),
{
    let element: EngineValue = match e.registry.restore(h) {
        None => {
            return Err(ConversionError::UnknownHandle(h));
        },
        Some(v) => match v {
            EngineValue::Array(items) => {
                proof {
                    lemma_ev_list(items@);
                }
                if index < 0 || index as usize >= items.len() {
                    return Ok(Converted::Done(JSJavaProxy::Undefined));
                }
                items[index as usize].clone()
            },
            _ => {
                return Err(ConversionError::NotAnArray(h));
            },
        },
    };
    proof {
        let n = old(e).n_promises();
        let m = old(e).reg().at(h).ev();
        assert(val_wf(m, n));
        lemma_list_wf_index(m->Array_0, n);
        assert(val_wf(m->Array_0[index as int], n));
    }
    Ok(e.convert(&element))
}

/// Write the element at `index` of the array behind `h`, materializing the
/// proxy value. Writing one place past the end appends; writing further past
/// the end pads the gap with `Undefined`, as assignment does in the script
/// language. `false` reports a dead handle, a non-array, a negative index, or
/// a value that does not materialize; nothing is stored then.
pub fn array_set(e: &mut ScriptEngine, h: u64, index: i32, value: JSJavaProxy) -> (r: bool)
    requires
        old(e).wf(),
    ensures
        final(e).wf(),
        final(e).n_promises() == old(e).n_promises(),
        final(e).job_queue() == old(e).job_queue(),
        final(e).globals_view() == old(e).globals_view(),
        crate::convert::proms_future_only(old(e).proms(), final(e).proms()),
        r == ({
            &&& old(e).reg().contains(h)
            &&& old(e).reg().at(h).ev() is Array
            &&& index >= 0
            &&& crate::convert::spec_materialize(value.dv(), old(e).reg()) is Some
        }),
        !r ==> final(e).reg() == old(e).reg(),
        r ==> ({
            let items = old(e).reg().at(h).ev()->Array_0;
            let w = crate::convert::spec_materialize(value.dv(), old(e).reg())->0;
            let updated = if index < items.len() {
                items.update(index as int, w)
            } else {
                items + Seq::new((index - items.len()) as nat, |j: int| EngineVal::Undefined)
                    + seq![w]
            };
            &&& final(e).reg().contains(h)
            &&& final(e).reg().at(h).ev() == EngineVal::Array(updated)
            &&& forall|h2: u64|
                h2 != h ==> #[trigger] final(e).reg().contains(h2) == old(e).reg().contains(h2)
            &&& forall|h2: u64|
                h2 != h && old(e).reg().contains(h2) ==> #[trigger] final(e).reg().at(h2) == old(
                    e,
                ).reg().at(h2)
        }),
{
    let ok = match e.registry.restore(h) {
        Some(v) => match v {
            EngineValue::Array(_) => true,
            _ => false,
        },
        None => false,
    };
    if !ok || index < 0 {
        return false;
    }
    let w = match e.materialize(&value) {
        Ok(w) => w,
        Err(_) => {
            return false;
        },
    };
    let ghost mid = *e;
    let mut items = match e.registry.restore(h) {
        Some(v) => match v.clone() {
            EngineValue::Array(it) => it,
            _ => vstd::pervasive::unreached(),
        },
        None => vstd::pervasive::unreached(),
    };
    let ghost models = ev_list(items@);
    proof {
        lemma_ev_list(items@);
    }
    let idx = index as usize;
    let ghost base = items@;
    if idx < items.len() {
        items[idx] = w;
        proof {
            lemma_ev_list(items@);
            assert(ev_list(items@) =~= models.update(idx as int, w.ev()));
        }
    } else {
        while items.len() < idx
            invariant
                base.len() <= items@.len() <= idx,
                items@.take(base.len() as int) == base,
                forall|j: int|
                    base.len() <= j < items@.len() ==> #[trigger] items@[j]
                        == EngineValue::Undefined,
            decreases idx - items@.len(),
        {
            items.push(EngineValue::Undefined);
            proof {
                assert(items@.take(base.len() as int) =~= base);
            }
        }
        items.push(w);
        proof {
            lemma_ev_list(items@);
            let pad = Seq::new((idx - base.len()) as nat, |j: int| EngineVal::Undefined);
            assert(ev_list(items@) =~= models + pad + seq![w.ev()]);
        }
    }
    let new_arr = EngineValue::Array(items);
    proof {
        let n = old(e).n_promises();
        assert(val_wf(old(e).reg().at(h).ev(), n));
        lemma_list_wf_index(models, n);
        lemma_list_wf_index(new_arr.ev()->Array_0, n);
    }
    let _ = e.registry.replace(h, new_arr);
    proof {
        lemma_registry_only_wf(mid, *e);
    }
    true
}

/// Splice the element vector: remove `delete_count` elements at `index` and
/// insert `value` there, when one is given.
fn splice_array(
    items: &mut Vec<EngineValue>,
    index: usize,
    delete_count: usize,
    value: Option<EngineValue>,
)
    requires
        index + delete_count <= old(items)@.len(),
    ensures
        final(items)@ == old(items)@.take(index as int) + (match value {
            Some(v) => seq![v],
            None => Seq::<EngineValue>::empty(),
        }) + old(items)@.skip((index + delete_count) as int),
{
    let mut d: usize = 0;
    while d < delete_count
        invariant
            d <= delete_count,
            index + delete_count <= old(items)@.len(),
            items@ == old(items)@.take(index as int) + old(items)@.skip((index + d) as int),
        decreases delete_count - d,
    {
        let _ = items.remove(index);
        proof {
            assert(items@ =~= old(items)@.take(index as int) + old(items)@.skip(
                (index + d + 1) as int,
            ));
        }
        d = d + 1;
    }
    match value {
        Some(v) => {
            items.insert(index, v);
            proof {
                assert(items@ =~= old(items)@.take(index as int) + seq![v] + old(items)@.skip(
                    (index + delete_count) as int,
                ));
            }
        },
        None => {
            proof {
                assert(items@ =~= old(items)@.take(index as int) + Seq::<EngineValue>::empty()
                    + old(items)@.skip((index + delete_count) as int));
            }
        },
    }
}

/// Insert the materialized value into the array behind `h` at `index`,
/// shifting later elements up; an index at or past the end appends, as splice
/// does in the script language. `false` reports a dead handle, a non-array, a
/// negative index, or a value that does not materialize; nothing is stored
/// then.
pub fn array_add(e: &mut ScriptEngine, h: u64, index: i32, value: JSJavaProxy) -> (r: bool)
    requires
        old(e).wf(),
    ensures
        final(e).wf(),
        final(e).n_promises() == old(e).n_promises(),
        final(e).job_queue() == old(e).job_queue(),
        final(e).globals_view() == old(e).globals_view(),
        crate::convert::proms_future_only(old(e).proms(), final(e).proms()),
        r == ({
            &&& old(e).reg().contains(h)
            &&& old(e).reg().at(h).ev() is Array
            &&& index >= 0
            &&& crate::convert::spec_materialize(value.dv(), old(e).reg()) is Some
        }),
        !r ==> final(e).reg() == old(e).reg(),
        r ==> ({
            let items = old(e).reg().at(h).ev()->Array_0;
            let w = crate::convert::spec_materialize(value.dv(), old(e).reg())->0;
            let ix = if index < items.len() {
                index as int
            } else {
                items.len() as int
            };
            &&& final(e).reg().contains(h)
            &&& final(e).reg().at(h).ev() == EngineVal::Array(items.insert(ix, w))
            &&& forall|h2: u64|
                h2 != h ==> #[trigger] final(e).reg().contains(h2) == old(e).reg().contains(h2)
            &&& forall|h2: u64|
                h2 != h && old(e).reg().contains(h2) ==> #[trigger] final(e).reg().at(h2) == old(
                    e,
                ).reg().at(h2)
        }),
{
    let ok = match e.registry.restore(h) {
        Some(v) => match v {
            EngineValue::Array(_) => true,
            _ => false,
        },
        None => false,
    };
    if !ok || index < 0 {
        return false;
    }
    let w = match e.materialize(&value) {
        Ok(w) => w,
        Err(_) => {
            return false;
        },
    };
    let ghost mid = *e;
    let mut items = match e.registry.restore(h) {
        Some(v) => match v.clone() {
            EngineValue::Array(it) => it,
            _ => vstd::pervasive::unreached(),
        },
        None => vstd::pervasive::unreached(),
    };
    let ghost models = ev_list(items@);
    proof {
        lemma_ev_list(items@);
    }
    let len = items.len();
    let ix = if (index as usize) < len {
        index as usize
    } else {
        len
    };
    splice_array(&mut items, ix, 0, Some(w));
    proof {
        lemma_ev_list(items@);
        assert(ev_list(items@) =~= models.insert(ix as int, w.ev()));
    }
    let new_arr = EngineValue::Array(items);
    proof {
        let n = old(e).n_promises();
        assert(val_wf(old(e).reg().at(h).ev(), n));
        lemma_list_wf_index(models, n);
        lemma_list_wf_index(new_arr.ev()->Array_0, n);
    }
    let _ = e.registry.replace(h, new_arr);
    proof {
        lemma_registry_only_wf(mid, *e);
    }
    true
}

/// Remove the element at `index` of the array behind `h`, shifting later
/// elements down; an index past the end removes nothing. `true` exactly when
/// the handle is live, refers to an array, and the index is not negative.
pub fn array_remove(e: &mut ScriptEngine, h: u64, index: i32) -> (r: bool)
    requires
        old(e).wf(),
    ensures
        final(e).wf(),
        ScriptEngine::only_registry_changed(*old(e), *final(e)),
        r == ({
            &&& old(e).reg().contains(h)
            &&& old(e).reg().at(h).ev() is Array
            &&& index >= 0
        }),
        !r ==> final(e).reg() == old(e).reg(),
        r ==> ({
            let items = old(e).reg().at(h).ev()->Array_0;
            let updated = if index < items.len() {
                items.remove(index as int)
            } else {
                items
            };
            &&& final(e).reg().contains(h)
            &&& final(e).reg().at(h).ev() == EngineVal::Array(updated)
            &&& forall|h2: u64|
                h2 != h ==> #[trigger] final(e).reg().contains(h2) == old(e).reg().contains(h2)
            &&& forall|h2: u64|
                h2 != h && old(e).reg().contains(h2) ==> #[trigger] final(e).reg().at(h2) == old(
                    e,
                ).reg().at(h2)
        }),
{
    if index < 0 {
        return false;
    }
    let mut items = match e.registry.restore(h) {
        Some(v) => match v {
            EngineValue::Array(_) => match v.clone() {
                EngineValue::Array(it) => it,
                _ => vstd::pervasive::unreached(),
            },
            _ => {
                return false;
            },
        },
        None => {
            return false;
        },
    };
    let ghost models = ev_list(items@);
    proof {
        lemma_ev_list(items@);
    }
    if (index as usize) < items.len() {
        splice_array(&mut items, index as usize, 1, None);
        proof {
            lemma_ev_list(items@);
            assert(ev_list(items@) =~= models.remove(index as int));
        }
    }
    let new_arr = EngineValue::Array(items);
    proof {
        let n = old(e).n_promises();
        assert(val_wf(old(e).reg().at(h).ev(), n));
        lemma_list_wf_index(models, n);
        lemma_list_wf_index(new_arr.ev()->Array_0, n);
    }
    let _ = e.registry.replace(h, new_arr);
    proof {
        lemma_registry_only_wf(*old(e), *e);
    }
    true
}

} // verus!
