//! A verified core for a host-embedded, cooperatively scheduled script engine
//! boundary: proxy values that cross the boundary, their binary wire encoding,
//! a generation-checked handle registry for engine-owned compound values, a
//! re-entrancy stack for the single evaluation scope, and the protocol that
//! turns script promise settlement into exactly one host completion event.

pub mod arrays;
pub mod bridge;
pub mod codec;
pub mod context;
pub mod convert;
pub mod engine;
pub mod from_error;
pub mod host_adapter;
pub mod java_log;
pub mod objects;
pub mod proxy;
pub mod registry;
pub mod scope;
pub mod wasm_result;
