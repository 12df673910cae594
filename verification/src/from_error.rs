//! Turning an engine-level error caught at the boundary into the value a
//! boundary call reports: a full exception proxy where the caller expects a
//! value, and a fixed failure mark where it expects a scalar.

use vstd::prelude::*;

use crate::proxy::{JSJavaProxy, ProxyVal};

verus! {

/// An engine error as the boundary sees it after catching: the thrown
/// exception's message and stacktrace when one could be caught, or the
/// error's own text otherwise.
#[derive(Debug, PartialEq, Eq)]
pub enum CaughtError {
    Exception(String, String),
    Message(String),
}

/// A return type that can absorb a caught engine error.
pub trait FromError: Sized {
    /// What the error converts to.
    spec fn from_err_ok(err: CaughtError, r: Self) -> bool;

    fn from_err(err: CaughtError) -> (r: Self)
        ensures
            Self::from_err_ok(err, r),
    ;
}

/// Where a proxy value is expected, the error becomes an exception proxy that
/// keeps the message and the stacktrace.
impl FromError for JSJavaProxy {
    open spec fn from_err_ok(err: CaughtError, r: Self) -> bool {
        match err {
            CaughtError::Exception(msg, stack) => r.dv() == ProxyVal::Exc(msg@, stack@),
            CaughtError::Message(msg) => r.dv() == ProxyVal::Exc(msg@, Seq::<char>::empty()),
        }
    }

    fn from_err(err: CaughtError) -> Self {
        match err {
            CaughtError::Exception(msg, stack) => JSJavaProxy::Exception(msg, stack),
            CaughtError::Message(msg) => JSJavaProxy::Exception(msg, String::new()),
        }
    }
}

/// Where a success flag is expected, any error reads as `false`.
impl FromError for bool {
    open spec fn from_err_ok(err: CaughtError, r: Self) -> bool {
        r == false
    }

    fn from_err(err: CaughtError) -> Self {
        false
    }
}

/// Where a count or index is expected, any error reads as -1.
impl FromError for i32 {
    open spec fn from_err_ok(err: CaughtError, r: Self) -> bool {
        r == -1
    }

    fn from_err(err: CaughtError) -> Self {
        -1
    }
}

/// Where an optional value is expected, any error reads as absence.
impl<T> FromError for Option<T> {
    open spec fn from_err_ok(err: CaughtError, r: Self) -> bool {
        r is None
    }

    fn from_err(err: CaughtError) -> Self {
        None
    }
}

} // verus!
