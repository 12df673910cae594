//! A model of the engine-owned state that the boundary logic reads and
//! writes: script values, the promise heap with its hidden bridge properties,
//! the engine's job queue, the global object, and the handle registry.
//!
//! The engine itself (parsing, evaluation) is an outside collaborator; what
//! is modelled here is exactly the state the conversion and bridging rules
//! depend on.

use vstd::prelude::*;

use crate::registry::HandleTable;

verus! {

broadcast use vstd::std_specs::vec::axiom_vec_index_decreases;

/// Mathematical model of an engine value.
pub enum EngineVal {
    Null,
    Undefined,
    Boolean(bool),
    Int(i32),
    Float(u64),
    Str(Seq<char>),
    Array(Seq<EngineVal>),
    Object(Seq<(Seq<char>, EngineVal)>),
    Function(Seq<char>),
    HostFn(i32, i32),
    Thrown(Seq<char>, Seq<char>),
    Promise(int),
}

/// One engine-owned script value, as the boundary logic sees it.
///
/// Compound values hold their parts inline — the model has no sharing — and a
/// promise is a reference into the engine's promise heap, because its hidden
/// bridge properties must be observable by every holder of the same promise.
/// `Float` carries the raw bit pattern of an IEEE 754 double.
#[derive(Debug, PartialEq, Eq)]
pub enum EngineValue {
    Null,
    Undefined,
    Boolean(bool),
    Int(i32),
    /// Bit pattern of an IEEE 754 double.
    Float(u64),
    Str(String),
    Array(Vec<EngineValue>),
    Object(Vec<(String, EngineValue)>),
    /// A script function, by its name.
    Function(String),
    /// A host-owned callable installed in the engine: host context id and
    /// host function id.
    HostFn(i32, i32),
    /// A throwable exception value: message and stacktrace.
    Thrown(String, String),
    /// A promise, by its index in the engine's promise heap.
    Promise(usize),
}

/// Model of a sequence of engine values, elementwise.
pub open spec fn ev_list(items: Seq<EngineValue>) -> Seq<EngineVal>
    decreases items,
{
    if items.len() == 0 {
        Seq::empty()
    } else {
        seq![items[0].ev()] + ev_list(items.drop_first())
    }
}

/// Model of a sequence of string-keyed engine entries, elementwise.
pub open spec fn ev_entries(entries: Seq<(String, EngineValue)>) -> Seq<(Seq<char>, EngineVal)>
    decreases entries,
{
    if entries.len() == 0 {
        Seq::empty()
    } else {
        seq![(entries[0].0@, entries[0].1.ev())] + ev_entries(entries.drop_first())
    }
}

/// `ev_list` models a sequence elementwise.
pub proof fn lemma_ev_list(items: Seq<EngineValue>)
    ensures
        ev_list(items).len() == items.len(),
        forall|i: int| 0 <= i < items.len() ==> #[trigger] ev_list(items)[i] == items[i].ev(),
    decreases items.len(),
{
    if items.len() > 0 {
        lemma_ev_list(items.drop_first());
    }
}

/// `ev_entries` models a sequence of entries elementwise.
pub proof fn lemma_ev_entries(entries: Seq<(String, EngineValue)>)
    ensures
        ev_entries(entries).len() == entries.len(),
        forall|i: int|
            0 <= i < entries.len() ==> #[trigger] ev_entries(entries)[i] == (
                entries[i].0@,
                entries[i].1.ev(),
            ),
    decreases entries.len(),
{
    if entries.len() > 0 {
        lemma_ev_entries(entries.drop_first());
    }
}

/// Whether every promise reference inside `v` points into a promise heap of
/// size `n`.
pub open spec fn val_wf(v: EngineVal, n: int) -> bool
    decreases v,
{
    match v {
        EngineVal::Promise(p) => 0 <= p < n,
        EngineVal::Array(items) => list_wf(items, n),
        EngineVal::Object(entries) => entries_wf(entries, n),
        _ => true,
    }
}

/// `val_wf`, elementwise.
pub open spec fn list_wf(items: Seq<EngineVal>, n: int) -> bool
    decreases items,
{
    items.len() == 0 || (val_wf(items[0], n) && list_wf(items.drop_first(), n))
}

/// `val_wf`, entrywise.
pub open spec fn entries_wf(entries: Seq<(Seq<char>, EngineVal)>, n: int) -> bool
    decreases entries,
{
    entries.len() == 0 || (val_wf(entries[0].1, n) && entries_wf(entries.drop_first(), n))
}

/// A value well formed for a heap of size `n` is well formed for any larger
/// heap: the heap only grows.
pub proof fn lemma_val_wf_grows(v: EngineVal, n: int, m: int)
    requires
        val_wf(v, n),
        n <= m,
    ensures
        val_wf(v, m),
    decreases v, 0int,
{
    match v {
        EngineVal::Array(items) => lemma_list_wf_grows(items, n, m),
        EngineVal::Object(entries) => lemma_entries_wf_grows(entries, n, m),
        _ => {},
    }
}

/// `lemma_val_wf_grows`, elementwise.
pub proof fn lemma_list_wf_grows(items: Seq<EngineVal>, n: int, m: int)
    requires
        list_wf(items, n),
        n <= m,
    ensures
        list_wf(items, m),
    decreases items, 1int,
{
    if items.len() > 0 {
        lemma_val_wf_grows(items[0], n, m);
        lemma_list_wf_grows(items.drop_first(), n, m);
    }
}

/// `lemma_val_wf_grows`, entrywise.
pub proof fn lemma_entries_wf_grows(entries: Seq<(Seq<char>, EngineVal)>, n: int, m: int)
    requires
        entries_wf(entries, n),
        n <= m,
    ensures
        entries_wf(entries, m),
    decreases entries, 1int,
{
    if entries.len() > 0 {
        lemma_val_wf_grows(entries[0].1, n, m);
        lemma_entries_wf_grows(entries.drop_first(), n, m);
    }
}

/// A well-formed list is well formed at every element, and conversely.
pub proof fn lemma_list_wf_index(items: Seq<EngineVal>, n: int)
    ensures
        list_wf(items, n) <==> (forall|i: int| 0 <= i < items.len() ==> val_wf(#[trigger] items[i], n)),
    decreases items.len(),
{
    if items.len() > 0 {
        lemma_list_wf_index(items.drop_first(), n);
        assert forall|i: int| 0 <= i < items.len() && list_wf(items, n) implies val_wf(
            #[trigger] items[i],
            n,
        ) by {
            if i > 0 {
                assert(items.drop_first()[i - 1] == items[i]);
            }
        }
        if forall|i: int| 0 <= i < items.len() ==> val_wf(#[trigger] items[i], n) {
            assert forall|i: int| 0 <= i < items.drop_first().len() implies val_wf(
                #[trigger] items.drop_first()[i],
                n,
            ) by {
                assert(items.drop_first()[i] == items[i + 1]);
            }
        }
    }
}

/// A well-formed entry list is well formed at every entry, and conversely.
pub proof fn lemma_entries_wf_index(entries: Seq<(Seq<char>, EngineVal)>, n: int)
    ensures
        entries_wf(entries, n) <==> (forall|i: int|
            0 <= i < entries.len() ==> val_wf(#[trigger] entries[i].1, n)),
    decreases entries.len(),
{
    if entries.len() > 0 {
        lemma_entries_wf_index(entries.drop_first(), n);
        assert forall|i: int| 0 <= i < entries.len() && entries_wf(entries, n) implies val_wf(
            #[trigger] entries[i].1,
            n,
        ) by {
            if i > 0 {
                assert(entries.drop_first()[i - 1] == entries[i]);
            }
        }
        if forall|i: int| 0 <= i < entries.len() ==> val_wf(#[trigger] entries[i].1, n) {
            assert forall|i: int| 0 <= i < entries.drop_first().len() implies val_wf(
                #[trigger] entries.drop_first()[i].1,
                n,
            ) by {
                assert(entries.drop_first()[i] == entries[i + 1]);
            }
        }
    }
}

impl EngineValue {
    /// The mathematical value this engine value stands for.
    pub open spec fn ev(self) -> EngineVal
        decreases self,
    {
        match &self {
            EngineValue::Null => EngineVal::Null,
            EngineValue::Undefined => EngineVal::Undefined,
            EngineValue::Boolean(b) => EngineVal::Boolean(*b),
            EngineValue::Int(i) => EngineVal::Int(*i),
            EngineValue::Float(bits) => EngineVal::Float(*bits),
            EngineValue::Str(s) => EngineVal::Str(s@),
            EngineValue::Array(items) => EngineVal::Array(ev_list(items@)),
            EngineValue::Object(entries) => EngineVal::Object(ev_entries(entries@)),
            EngineValue::Function(name) => EngineVal::Function(name@),
            EngineValue::HostFn(ctx, f) => EngineVal::HostFn(*ctx, *f),
            EngineValue::Thrown(msg, stack) => EngineVal::Thrown(msg@, stack@),
            EngineValue::Promise(p) => EngineVal::Promise(*p as int),
        }
    }
}

/// Index of the first entry with key `key`, or -1 when there is none.
pub open spec fn key_index(entries: Seq<(Seq<char>, EngineVal)>, key: Seq<char>) -> int
    decreases entries,
{
    if entries.len() == 0 {
        -1
    } else if entries[0].0 == key {
        0
    } else {
        let r = key_index(entries.drop_first(), key);
        if r < 0 {
            -1
        } else {
            r + 1
        }
    }
}

/// What `key_index` finds: either no entry has the key, or the index is the
/// first entry that does.
pub proof fn lemma_key_index(entries: Seq<(Seq<char>, EngineVal)>, key: Seq<char>)
    ensures
        ({
            let k = key_index(entries, key);
            ||| (k == -1 && forall|j: int| 0 <= j < entries.len() ==> (#[trigger] entries[j]).0
                != key)
            ||| (0 <= k < entries.len() && entries[k].0 == key && forall|j: int|
                0 <= j < k ==> (#[trigger] entries[j]).0 != key)
        }),
    decreases entries.len(),
{
    if entries.len() > 0 && entries[0].0 != key {
        lemma_key_index(entries.drop_first(), key);
        let k = key_index(entries, key);
        assert forall|j: int| 1 <= j < entries.len() implies entries.drop_first()[j - 1]
            == (#[trigger] entries[j]) by {}
    }
}

/// Look up the first entry with key `key` in an object's entry list.
pub fn find_key(entries: &Vec<(String, EngineValue)>, key: &String) -> (r: Option<usize>)
    ensures
        match r {
            Some(i) => i < entries@.len() && key_index(ev_entries(entries@), key@) == i,
            None => key_index(ev_entries(entries@), key@) == -1,
        },
{
    proof {
        lemma_ev_entries(entries@);
        lemma_key_index(ev_entries(entries@), key@);
    }
    let n = entries.len();
    let mut i: usize = 0;
    while i < n
        invariant
            i <= n,
            n == entries@.len(),
            forall|j: int| 0 <= j < i ==> (#[trigger] ev_entries(entries@)[j]).0 != key@,
            ev_entries(entries@).len() == n,
            forall|j: int|
                0 <= j < n ==> #[trigger] ev_entries(entries@)[j] == (
                    entries@[j].0@,
                    entries@[j].1.ev(),
                ),
            ({
                let k = key_index(ev_entries(entries@), key@);
                ||| (k == -1 && forall|j: int|
                    0 <= j < n ==> (#[trigger] ev_entries(entries@)[j]).0 != key@)
                ||| (0 <= k < n && ev_entries(entries@)[k].0 == key@ && forall|j: int|
                    0 <= j < k ==> (#[trigger] ev_entries(entries@)[j]).0 != key@)
            }),
        decreases n - i,
    {
        if entries[i].0.eq(key) {
            proof {
                let models = ev_entries(entries@);
                let k = key_index(models, key@);
                assert(models[i as int].0 == key@);
                if k == -1 {
                    assert(models[i as int].0 != key@);
                } else if k < i {
                    assert(models[k].0 != key@);
                } else if k > i {
                    assert(models[i as int].0 != key@);
                }
            }
            return Some(i);
        }
        i = i + 1;
    }
    None
}

/// Settlement status of one promise: pending, or settled with the value it
/// was resolved or rejected with. A promise settles at most once.
#[derive(Debug, PartialEq, Eq)]
pub enum PromiseState {
    Pending,
    Resolved(EngineValue),
    Rejected(EngineValue),
}

/// One promise in the engine's heap, together with the hidden bridge
/// properties stored on the promise object itself: the handle of its
/// persisted container and the host future id it is bridged to.
pub struct PromiseData {
    pub state: PromiseState,
    /// Handle of the persisted promise container, once one exists.
    pub container: Option<u64>,
    /// Host future id, once the promise is bridged.
    pub future_id: Option<i32>,
    /// Whether the bridge's settlement callbacks are attached.
    pub attached: bool,
    /// Whether the settlement callback invocation has been queued; it is
    /// queued at most once per promise.
    pub fired: bool,
}

/// One queued invocation of a bridge settlement callback: the engine's job
/// queue hands the settled value to the callback registered for the given
/// host future.
#[derive(Debug, PartialEq, Eq)]
pub struct SettleEvent {
    pub future_id: i32,
    pub resolved: bool,
    pub value: EngineValue,
}

/// The engine-owned state that the boundary logic operates on: the handle
/// registry, the promise heap, the job queue of pending settlement
/// callbacks, and the global object.
pub struct ScriptEngine {
    pub(crate) registry: HandleTable<EngineValue>,
    pub(crate) promises: Vec<PromiseData>,
    pub(crate) jobs: Vec<SettleEvent>,
    pub(crate) globals: Vec<(String, EngineValue)>,
}

impl ScriptEngine {
    /// The handle registry.
    pub open(crate) spec fn reg(self) -> HandleTable<EngineValue> {
        self.registry
    }

    /// The promise heap.
    pub open(crate) spec fn proms(self) -> Seq<PromiseData> {
        self.promises@
    }

    /// Number of promises in the heap.
    pub open spec fn n_promises(self) -> int {
        self.proms().len() as int
    }

    /// The job queue, front first.
    pub open(crate) spec fn job_queue(self) -> Seq<SettleEvent> {
        self.jobs@
    }

    /// The global object's entries.
    pub open(crate) spec fn globals_view(self) -> Seq<(String, EngineValue)> {
        self.globals@
    }

    /// Internal consistency: the registry is well formed, every stored value
    /// points only at promises that exist, callbacks are attached only to
    /// bridged promises, and a callback fires only once attached.
    pub open spec fn wf(self) -> bool {
        &&& self.reg().wf()
        &&& forall|h: u64|
            self.reg().contains(h) ==> val_wf(#[trigger] self.reg().at(h).ev(), self.n_promises())
        &&& forall|i: int|
            0 <= i < self.n_promises() ==> match #[trigger] self.proms()[i].state {
                PromiseState::Pending => true,
                PromiseState::Resolved(v) => val_wf(v.ev(), self.n_promises()),
                PromiseState::Rejected(v) => val_wf(v.ev(), self.n_promises()),
            }
        &&& forall|i: int|
            0 <= i < self.n_promises() ==> (#[trigger] self.proms()[i].attached
                ==> self.proms()[i].future_id is Some)
        &&& forall|i: int|
            0 <= i < self.n_promises() ==> (#[trigger] self.proms()[i].fired
                ==> self.proms()[i].attached)
        &&& forall|i: int|
            0 <= i < self.n_promises() ==> ((#[trigger] self.proms()[i].attached && !(
            self.proms()[i].state is Pending)) ==> self.proms()[i].fired)
        &&& forall|k: int|
            0 <= k < self.job_queue().len() ==> val_wf(
                #[trigger] self.job_queue()[k].value.ev(),
                self.n_promises(),
            )
        &&& forall|g: int|
            0 <= g < self.globals_view().len() ==> val_wf(
                #[trigger] self.globals_view()[g].1.ev(),
                self.n_promises(),
            )
    }

    pub fn new() -> (e: Self)
        ensures
            e.wf(),
            e.n_promises() == 0,
            e.reg().arena_len() == 0,
            forall|h: u64| !e.reg().contains(h),
            e.job_queue() == Seq::<SettleEvent>::empty(),
            e.globals_view() == Seq::<(String, EngineValue)>::empty(),
    {
        ScriptEngine {
            registry: HandleTable::new(),
            promises: Vec::new(),
            jobs: Vec::new(),
            globals: Vec::new(),
        }
    }

    /// The engine creates a new, pending, unbridged promise and hands out its
    /// heap index. Everything that existed before is untouched.
    pub fn new_promise(&mut self) -> (pidx: usize)
        requires
            old(self).wf(),
        ensures
            final(self).wf(),
            pidx as int == old(self).n_promises(),
            final(self).n_promises() == old(self).n_promises() + 1,
            final(self).proms() == old(self).proms().push(
                PromiseData {
                    state: PromiseState::Pending,
                    container: None,
                    future_id: None,
                    attached: false,
                    fired: false,
                },
            ),
            final(self).reg() == old(self).reg(),
            final(self).job_queue() == old(self).job_queue(),
            final(self).globals_view() == old(self).globals_view(),
    {
        let pidx = self.promises.len();
        self.promises.push(
            PromiseData {
                state: PromiseState::Pending,
                container: None,
                future_id: None,
                attached: false,
                fired: false,
            },
        );
        proof {
            lemma_engine_wf_heap_grow(*old(self), *self);
        }
        pidx
    }

    /// Relation between the engine before and after `settle_promise(pidx,
    /// resolved, value)` returned `r`: only the transition out of `Pending`
    /// does anything, and it queues exactly one settlement callback
    /// invocation — exactly when the bridge's callbacks are attached and have
    /// not fired yet.
    pub open spec fn settle_post(
        pre: Self,
        post: Self,
        pidx: int,
        resolved: bool,
        value: EngineValue,
        r: bool,
    ) -> bool {
        &&& r == pre.proms()[pidx].state is Pending
        &&& post.reg() == pre.reg()
        &&& post.globals_view() == pre.globals_view()
        &&& post.n_promises() == pre.n_promises()
        &&& !r ==> post.proms() == pre.proms() && post.job_queue() == pre.job_queue()
        &&& r ==> {
            let pd = pre.proms()[pidx];
            &&& post.proms().len() == pre.proms().len()
            &&& forall|j: int|
                0 <= j < pre.proms().len() && j != pidx ==> #[trigger] post.proms()[j]
                    == pre.proms()[j]
            &&& post.proms()[pidx].container == pd.container
            &&& post.proms()[pidx].future_id == pd.future_id
            &&& post.proms()[pidx].attached == pd.attached
            &&& post.proms()[pidx].fired == (pd.fired || (pd.attached && !pd.fired))
            &&& match post.proms()[pidx].state {
                PromiseState::Pending => false,
                PromiseState::Resolved(v) => resolved && v.ev() == value.ev(),
                PromiseState::Rejected(v) => !resolved && v.ev() == value.ev(),
            }
            &&& if pd.attached && !pd.fired {
                post.job_queue() == pre.job_queue().push(
                    SettleEvent { future_id: pd.future_id->0, resolved, value },
                )
            } else {
                post.job_queue() == pre.job_queue()
            }
        }
    }

    /// The engine settles a promise: at most once, and only the transition
    /// out of `Pending` does anything. When the bridge's callbacks are
    /// attached and have not fired yet, exactly one settlement callback
    /// invocation is queued; `r` reports whether the promise settled now.
    pub fn settle_promise(&mut self, pidx: usize, resolved: bool, value: EngineValue) -> (r: bool)
        requires
            old(self).wf(),
            pidx < old(self).n_promises(),
            val_wf(value.ev(), old(self).n_promises()),
        ensures
            final(self).wf(),
            Self::settle_post(*old(self), *final(self), pidx as int, resolved, value, r),
    {
        let pending = match &self.promises[pidx].state {
            PromiseState::Pending => true,
            _ => false,
        };
        if !pending {
            return false;
        }
        let stored = value.clone();
        let pd = &mut self.promises[pidx];
        let attached = pd.attached;
        let fired = pd.fired;
        let fid = match &pd.future_id {
            Some(f) => *f,
            None => 0,
        };
        pd.state = if resolved {
            PromiseState::Resolved(stored)
        } else {
            PromiseState::Rejected(stored)
        };
        if attached && !fired {
            pd.fired = true;
            self.jobs.push(SettleEvent { future_id: fid, resolved, value });
        }
        true
    }

    /// Drive the job queue one step: the engine runs the oldest pending job,
    /// which invokes one settlement callback. Jobs run in queue order.
    pub fn run_job(&mut self) -> (r: Option<SettleEvent>)
        requires
            old(self).wf(),
        ensures
            final(self).wf(),
            final(self).reg() == old(self).reg(),
            final(self).proms() == old(self).proms(),
            final(self).globals_view() == old(self).globals_view(),
            match r {
                Some(ev) => old(self).job_queue().len() > 0 && ev == old(self).job_queue()[0]
                    && final(self).job_queue() == old(self).job_queue().drop_first(),
                None => old(self).job_queue().len() == 0 && final(self).job_queue() == old(
                    self,
                ).job_queue(),
            },
    {
        if self.jobs.len() == 0 {
            None
        } else {
            let ev = self.jobs.remove(0);
            proof {
                assert(final(self).job_queue() =~= old(self).job_queue().drop_first());
            }
            Some(ev)
        }
    }
}

/// Growing the promise heap by one pending promise preserves well-formedness:
/// everything stored stays well formed for the larger heap.
proof fn lemma_engine_wf_heap_grow(pre: ScriptEngine, post: ScriptEngine)
    requires
        pre.wf(),
        post.n_promises() == pre.n_promises() + 1,
        post.proms() == pre.proms().push(
            PromiseData {
                state: PromiseState::Pending,
                container: None,
                future_id: None,
                attached: false,
                fired: false,
            },
        ),
        post.reg() == pre.reg(),
        post.job_queue() == pre.job_queue(),
        post.globals_view() == pre.globals_view(),
    ensures
        post.wf(),
{
    let n = pre.n_promises();
    let m = post.n_promises();
    assert forall|h: u64| post.reg().contains(h) implies val_wf(
        #[trigger] post.reg().at(h).ev(),
        m,
    ) by {
        lemma_val_wf_grows(post.reg().at(h).ev(), n, m);
    }
    assert forall|i: int| 0 <= i < m implies match #[trigger] post.proms()[i].state {
        PromiseState::Pending => true,
        PromiseState::Resolved(v) => val_wf(v.ev(), m),
        PromiseState::Rejected(v) => val_wf(v.ev(), m),
    } by {
        if i < n {
            assert(post.proms()[i] == pre.proms()[i]);
            match pre.proms()[i].state {
                PromiseState::Resolved(v) => lemma_val_wf_grows(v.ev(), n, m),
                PromiseState::Rejected(v) => lemma_val_wf_grows(v.ev(), n, m),
                PromiseState::Pending => {},
            }
        }
    }
    assert forall|k: int| 0 <= k < post.job_queue().len() implies val_wf(
        #[trigger] post.job_queue()[k].value.ev(),
        m,
    ) by {
        lemma_val_wf_grows(post.job_queue()[k].value.ev(), n, m);
    }
    assert forall|g: int| 0 <= g < post.globals_view().len() implies val_wf(
        #[trigger] post.globals_view()[g].1.ev(),
        m,
    ) by {
        lemma_val_wf_grows(post.globals_view()[g].1.ev(), n, m);
    }
}

impl Clone for EngineValue {
    /// A clone stands for the same mathematical value.
    fn clone(&self) -> (r: Self)
        ensures
            r.ev() == self.ev(),
        decreases *self,
    {
        match self {
            EngineValue::Null => EngineValue::Null,
            EngineValue::Undefined => EngineValue::Undefined,
            EngineValue::Boolean(b) => EngineValue::Boolean(*b),
            EngineValue::Int(i) => EngineValue::Int(*i),
            EngineValue::Float(bits) => EngineValue::Float(*bits),
            EngineValue::Str(s) => EngineValue::Str(s.clone()),
            EngineValue::Array(items) => {
                let ghost models = ev_list(items@);
                proof {
                    lemma_ev_list(items@);
                }
                let n = items.len();
                let mut out: Vec<EngineValue> = Vec::new();
                let mut i: usize = 0;
                while i < n
                    invariant
                        *self is Array,
                        self->Array_0 == *items,
                        i <= n,
                        n == items@.len(),
                        models == ev_list(items@),
                        models.len() == n,
                        forall|k: int| 0 <= k < n ==> models[k] == items@[k].ev(),
                        out@.len() == i,
                        forall|k: int| 0 <= k < i ==> #[trigger] out@[k].ev() == models[k],
                    decreases n - i,
                {
                    proof {
                        assert(decreases_to!(*self => self->Array_0));
                        assert(decreases_to!(*items => items@));
                        assert(decreases_to!(items@ => items@[i as int]));
                        assert(decreases_to!(*self => items@[i as int]));
                    }
                    out.push(items[i].clone());
                    i = i + 1;
                }
                let r = EngineValue::Array(out);
                proof {
                    lemma_ev_list(out@);
                    assert(ev_list(out@) =~= models);
                }
                r
            },
            EngineValue::Object(entries) => {
                let ghost models = ev_entries(entries@);
                proof {
                    lemma_ev_entries(entries@);
                }
                let n = entries.len();
                let mut out: Vec<(String, EngineValue)> = Vec::new();
                let mut i: usize = 0;
                while i < n
                    invariant
                        *self is Object,
                        self->Object_0 == *entries,
                        i <= n,
                        n == entries@.len(),
                        models == ev_entries(entries@),
                        models.len() == n,
                        forall|k: int|
                            0 <= k < n ==> models[k] == (entries@[k].0@, entries@[k].1.ev()),
                        out@.len() == i,
                        forall|k: int|
                            0 <= k < i ==> (#[trigger] out@[k].0@, out@[k].1.ev()) == models[k],
                    decreases n - i,
                {
                    proof {
                        assert(decreases_to!(*self => self->Object_0));
                        assert(decreases_to!(*entries => entries@));
                        assert(decreases_to!(entries@ => entries@[i as int]));
                        assert(decreases_to!(entries@[i as int] => entries@[i as int].1));
                        assert(decreases_to!(*self => entries@[i as int].1));
                    }
                    let key = entries[i].0.clone();
                    let val = entries[i].1.clone();
                    out.push((key, val));
                    i = i + 1;
                }
                let r = EngineValue::Object(out);
                proof {
                    lemma_ev_entries(out@);
                    assert(ev_entries(out@) =~= models);
                }
                r
            },
            EngineValue::Function(name) => EngineValue::Function(name.clone()),
            EngineValue::HostFn(ctx, f) => EngineValue::HostFn(*ctx, *f),
            EngineValue::Thrown(msg, stack) => EngineValue::Thrown(msg.clone(), stack.clone()),
            EngineValue::Promise(p) => EngineValue::Promise(*p),
        }
    }
}

} // verus!
