//! The host function adapter: what lets script code invoke a host-owned
//! callable through the boundary. The engine hands the adapter an argument
//! list of unknown arity; the adapter converts the arguments, packs them as
//! one inline array proxy, and serializes that for the host call entrypoint.
//! The host's serialized reply is decoded back into a proxy; a reply that
//! cannot be decoded degrades to `Undefined` rather than failing the call,
//! and an exception reply is thrown inside the engine instead of returned.

use vstd::prelude::*;

use crate::codec::{decode, encode, spec_decode, spec_encode};
use crate::proxy::{dv_list, JSJavaProxy, ProxyVal};

verus! {

/// A host-owned callable, named by its host context id and host function id.
/// Its true arity is unknowable at registration time, so it accepts any
/// number of arguments.
pub struct JavaFunction {
    pub context: i32,
    pub func: i32,
}

impl JavaFunction {
    pub fn new(context: i32, func: i32) -> (f: Self)
        ensures
            f.context == context,
            f.func == func,
    {
        JavaFunction { context, func }
    }
}

/// How many engine arguments a proxy value carries when passed as a call's
/// argument pack: an inline array spreads, `Undefined` carries none, anything
/// else is one argument.
pub fn num_args(p: &JSJavaProxy) -> (n: usize)
    ensures
        match p.dv() {
            ProxyVal::Arr(items) => n == items.len(),
            ProxyVal::Undefined => n == 0,
            _ => n == 1,
        },
{
    match p {
        JSJavaProxy::Array(items) => {
            proof {
                crate::proxy::lemma_dv_list(items@);
            }
            items.len()
        },
        JSJavaProxy::Undefined => 0,
        _ => 1,
    }
}

/// The engine arguments a proxy value carries: an inline array spreads into
/// its elements, `Undefined` into none, anything else into itself.
pub fn into_args(p: JSJavaProxy) -> (args: Vec<JSJavaProxy>)
    ensures
        match p.dv() {
            ProxyVal::Arr(items) => dv_list(args@) == items,
            ProxyVal::Undefined => args@ == Seq::<JSJavaProxy>::empty(),
            _ => args@.len() == 1 && args@[0] == p,
        },
{
    match p {
        JSJavaProxy::Array(items) => items,
        JSJavaProxy::Undefined => Vec::new(),
        other => {
            let mut args = Vec::new();
            args.push(other);
            args
        },
    }
}

/// Pack converted call arguments as one inline array proxy and serialize it
/// for the host call entrypoint.
pub fn pack_args(args: Vec<JSJavaProxy>) -> (body: Vec<u8>)
    ensures
        body@ == spec_encode(ProxyVal::Arr(dv_list(args@))),
{
    let packed = JSJavaProxy::Array(args);
    encode(&packed)
}

/// Decode the host's serialized reply. A reply that is not one well-formed
/// encoding is degraded to `Undefined` — the engine stays alive rather than
/// propagating a hard failure for one bad external callback.
pub fn decode_reply(bytes: &[u8]) -> (p: JSJavaProxy)
    ensures
        ({
            match spec_decode(bytes@) {
                Some(sr) => if sr.1.len() == 0 {
                    p.dv() == sr.0
                } else {
                    p.dv() == ProxyVal::Undefined
                },
                None => p.dv() == ProxyVal::Undefined,
            }
        }),
{
    match decode(bytes) {
        Some(p) => p,
        None => JSJavaProxy::Undefined,
    }
}

/// What the adapter does with the decoded reply: an exception reply is thrown
/// inside the engine, with the exception's message as the throw payload; any
/// other reply is returned as the call's value.
#[derive(Debug, PartialEq, Eq)]
pub enum HostReply {
    Throw(String),
    Return(JSJavaProxy),
}

/// Decide the reply's disposition.
pub fn reply_action(p: JSJavaProxy) -> (r: HostReply)
    ensures
        match p.dv() {
            ProxyVal::Exc(msg, _) => r matches HostReply::Throw(t) && t@ == msg,
            _ => r matches HostReply::Return(q) && q == p,
        },
{
    match p {
        JSJavaProxy::Exception(msg, _) => HostReply::Throw(msg),
        other => HostReply::Return(other),
    }
}

} // verus!
