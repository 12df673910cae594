//! The tagged proxy representation of one script value, and its mathematical
//! model. Every value that crosses the boundary between the host and the
//! engine is one of these variants; compound values that live inside the
//! engine are carried as opaque 64-bit handles, never copied.

use vstd::prelude::*;

verus! {

/// Mathematical model of a proxy value: strings become character sequences,
/// vectors become sequences, so that deep equality of two proxies is plain
/// equality of their models.
pub enum ProxyVal {
    Null,
    Undefined,
    Str(Seq<char>),
    Int(i32),
    Float(u64),
    Boolean(bool),
    Arr(Seq<ProxyVal>),
    NativeArr(u64),
    Obj(Seq<(Seq<char>, ProxyVal)>),
    NativeObj(u64),
    Fun(Seq<char>, u64),
    HostFun(i32, i32),
    Exc(Seq<char>, Seq<char>),
    Future(i32, u64),
}

/// The boundary representation of one script value.
///
/// Compound values materialized entirely on the host side (argument lists for
/// host calls) use the inline `Array` / `Object` variants; every compound
/// value that originates inside the engine is carried as a handle
/// (`NativeArray`, `NativeObject`, `Function`, `CompletableFuture`) so that
/// reference identity is preserved and cyclic structures are never copied.
///
/// The `Float` variant carries the raw bit pattern of an IEEE 754 double;
/// the bits themselves are what crosses the boundary.
#[derive(Debug, PartialEq, Eq)]
pub enum JSJavaProxy {
    Null,
    Undefined,
    String(String),
    Int(i32),
    /// Bit pattern of an IEEE 754 double.
    Float(u64),
    Boolean(bool),
    Array(Vec<JSJavaProxy>),
    /// Handle to an engine-owned array.
    NativeArray(u64),
    Object(Vec<(String, JSJavaProxy)>),
    /// Handle to an engine-owned object.
    NativeObject(u64),
    /// Function name and handle to the engine-owned function.
    Function(String, u64),
    /// Host context id and host function id of a host-owned callable.
    JavaFunction(i32, i32),
    /// Message and stacktrace of a script exception.
    Exception(String, String),
    /// Host future id and handle to the engine-owned promise.
    CompletableFuture(i32, u64),
}

/// Model of a sequence of proxies, elementwise.
pub open spec fn dv_list(items: Seq<JSJavaProxy>) -> Seq<ProxyVal>
    decreases items,
{
    if items.len() == 0 {
        Seq::empty()
    } else {
        seq![items[0].dv()] + dv_list(items.drop_first())
    }
}

/// Model of a sequence of string-keyed proxy entries, elementwise.
pub open spec fn dv_entries(entries: Seq<(String, JSJavaProxy)>) -> Seq<(Seq<char>, ProxyVal)>
    decreases entries,
{
    if entries.len() == 0 {
        Seq::empty()
    } else {
        seq![(entries[0].0@, entries[0].1.dv())] + dv_entries(entries.drop_first())
    }
}

/// `dv_list` models a sequence elementwise.
pub proof fn lemma_dv_list(items: Seq<JSJavaProxy>)
    ensures
        dv_list(items).len() == items.len(),
        forall|i: int| 0 <= i < items.len() ==> #[trigger] dv_list(items)[i] == items[i].dv(),
    decreases items.len(),
{
    if items.len() > 0 {
        lemma_dv_list(items.drop_first());
    }
}

/// `dv_entries` models a sequence of entries elementwise.
pub proof fn lemma_dv_entries(entries: Seq<(String, JSJavaProxy)>)
    ensures
        dv_entries(entries).len() == entries.len(),
        forall|i: int|
            0 <= i < entries.len() ==> #[trigger] dv_entries(entries)[i] == (
                entries[i].0@,
                entries[i].1.dv(),
            ),
    decreases entries.len(),
{
    if entries.len() > 0 {
        lemma_dv_entries(entries.drop_first());
    }
}

impl Clone for JSJavaProxy {
    /// A clone stands for the same mathematical value.
    fn clone(&self) -> (r: Self)
        ensures
            r.dv() == self.dv(),
        decreases *self,
    {
        match self {
            JSJavaProxy::Null => JSJavaProxy::Null,
            JSJavaProxy::Undefined => JSJavaProxy::Undefined,
            JSJavaProxy::String(s) => JSJavaProxy::String(s.clone()),
            JSJavaProxy::Int(i) => JSJavaProxy::Int(*i),
            JSJavaProxy::Float(bits) => JSJavaProxy::Float(*bits),
            JSJavaProxy::Boolean(b) => JSJavaProxy::Boolean(*b),
            JSJavaProxy::Array(items) => {
                let ghost models = dv_list(items@);
                proof {
                    lemma_dv_list(items@);
                }
                let n = items.len();
                let mut out: Vec<JSJavaProxy> = Vec::new();
                let mut i: usize = 0;
                while i < n
                    invariant
                        *self is Array,
                        self->Array_0 == *items,
                        i <= n,
                        n == items@.len(),
                        models == dv_list(items@),
                        models.len() == n,
                        forall|k: int| 0 <= k < n ==> models[k] == items@[k].dv(),
                        out@.len() == i,
                        forall|k: int| 0 <= k < i ==> #[trigger] out@[k].dv() == models[k],
                    decreases n - i,
                {
                    proof {
                        assert(decreases_to!(*self => self->Array_0));
                        assert(decreases_to!(*items => items@));
                        assert(decreases_to!(items@ => items@[i as int]));
                        assert(decreases_to!(*self => items@[i as int]));
                    }
                    out.push(items[i].clone());
                    i = i + 1;
                }
                let r = JSJavaProxy::Array(out);
                proof {
                    lemma_dv_list(r->Array_0@);
                    assert(dv_list(r->Array_0@) =~= models);
                }
                r
            },
            JSJavaProxy::NativeArray(h) => JSJavaProxy::NativeArray(*h),
            JSJavaProxy::Object(entries) => {
                let ghost models = dv_entries(entries@);
                proof {
                    lemma_dv_entries(entries@);
                }
                let n = entries.len();
                let mut out: Vec<(String, JSJavaProxy)> = Vec::new();
                let mut i: usize = 0;
                while i < n
                    invariant
                        *self is Object,
                        self->Object_0 == *entries,
                        i <= n,
                        n == entries@.len(),
                        models == dv_entries(entries@),
                        models.len() == n,
                        forall|k: int|
                            0 <= k < n ==> models[k] == (entries@[k].0@, entries@[k].1.dv()),
                        out@.len() == i,
                        forall|k: int|
                            0 <= k < i ==> (#[trigger] out@[k].0@, out@[k].1.dv()) == models[k],
                    decreases n - i,
                {
                    proof {
                        assert(decreases_to!(*self => self->Object_0));
                        assert(decreases_to!(*entries => entries@));
                        assert(decreases_to!(entries@ => entries@[i as int]));
                        assert(decreases_to!(entries@[i as int] => entries@[i as int].1));
                        assert(decreases_to!(*self => entries@[i as int].1));
                    }
                    let key = entries[i].0.clone();
                    let val = entries[i].1.clone();
                    out.push((key, val));
                    i = i + 1;
                }
                let r = JSJavaProxy::Object(out);
                proof {
                    lemma_dv_entries(r->Object_0@);
                    assert(dv_entries(r->Object_0@) =~= models);
                }
                r
            },
            JSJavaProxy::NativeObject(h) => JSJavaProxy::NativeObject(*h),
            JSJavaProxy::Function(name, h) => JSJavaProxy::Function(name.clone(), *h),
            JSJavaProxy::JavaFunction(ctx, f) => JSJavaProxy::JavaFunction(*ctx, *f),
            JSJavaProxy::Exception(msg, stack) => JSJavaProxy::Exception(msg.clone(), stack.clone()),
            JSJavaProxy::CompletableFuture(fut, h) => JSJavaProxy::CompletableFuture(*fut, *h),
        }
    }
}

impl JSJavaProxy {
    /// The mathematical value this proxy stands for.
    pub open spec fn dv(self) -> ProxyVal
        decreases self,
    {
        match &self {
            JSJavaProxy::Null => ProxyVal::Null,
            JSJavaProxy::Undefined => ProxyVal::Undefined,
            JSJavaProxy::String(s) => ProxyVal::Str(s@),
            JSJavaProxy::Int(i) => ProxyVal::Int(*i),
            JSJavaProxy::Float(bits) => ProxyVal::Float(*bits),
            JSJavaProxy::Boolean(b) => ProxyVal::Boolean(*b),
            JSJavaProxy::Array(items) => ProxyVal::Arr(dv_list(items@)),
            JSJavaProxy::NativeArray(h) => ProxyVal::NativeArr(*h),
            JSJavaProxy::Object(entries) => ProxyVal::Obj(dv_entries(entries@)),
            JSJavaProxy::NativeObject(h) => ProxyVal::NativeObj(*h),
            JSJavaProxy::Function(name, h) => ProxyVal::Fun(name@, *h),
            JSJavaProxy::JavaFunction(ctx, f) => ProxyVal::HostFun(*ctx, *f),
            JSJavaProxy::Exception(msg, stack) => ProxyVal::Exc(msg@, stack@),
            JSJavaProxy::CompletableFuture(fut, h) => ProxyVal::Future(*fut, *h),
        }
    }
}

} // verus!
