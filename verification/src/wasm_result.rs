//! Packing return values into the boundary's single 64-bit word: scalars are
//! carried as themselves, a serialized buffer as its address in the high half
//! and its length in the low half.

use vstd::prelude::*;

verus! {

/// A value that can be returned across the boundary as one 64-bit word.
pub trait IntoWasmResult: Sized {
    /// The word this value packs to.
    spec fn wasm_spec(self) -> u64;

    fn into_wasm(self) -> (r: u64)
        ensures
            r == self.wasm_spec(),
    ;
}

/// A flag crosses as 1 or 0.
impl IntoWasmResult for bool {
    open spec fn wasm_spec(self) -> u64 {
        if self {
            1u64
        } else {
            0u64
        }
    }

    fn into_wasm(self) -> u64 {
        if self {
            1
        } else {
            0
        }
    }
}

impl IntoWasmResult for i32 {
    open spec fn wasm_spec(self) -> u64 {
        self as u64
    }

    fn into_wasm(self) -> u64 {
        #[verifier::truncate] (self as u64)
    }
}

impl IntoWasmResult for u32 {
    open spec fn wasm_spec(self) -> u64 {
        self as u64
    }

    fn into_wasm(self) -> u64 {
        self as u64
    }
}

impl IntoWasmResult for i64 {
    open spec fn wasm_spec(self) -> u64 {
        self as u64
    }

    fn into_wasm(self) -> u64 {
        #[verifier::truncate] (self as u64)
    }
}

impl IntoWasmResult for u64 {
    open spec fn wasm_spec(self) -> u64 {
        self
    }

    fn into_wasm(self) -> u64 {
        self
    }
}

/// The packed word carrying a buffer: its 32-bit address in the high half,
/// its length in the low half.
pub open spec fn spec_buffer_word(addr: u32, len: u32) -> u64 {
    ((addr as u64) << 32) | (len as u64)
}

/// Pack a buffer's address and length into one word.
pub fn pack_buffer_word(addr: u32, len: u32) -> (w: u64)
    ensures
        w == spec_buffer_word(addr, len),
{
    ((addr as u64) << 32u64) | (len as u64)
}

/// Recover a buffer's address and length from a packed word.
pub fn unpack_buffer_word(w: u64) -> (r: (u32, u32))
    ensures
        r.0 as u64 == w >> 32,
        r.1 as u64 == w & 0xFFFF_FFFF,
{
    let addr = #[verifier::truncate] ((w >> 32u64) as u32);
    let len = #[verifier::truncate] ((w & 0xFFFF_FFFF) as u32);
    proof {
        assert(((w >> 32u64) as u32) as u64 == w >> 32u64) by (bit_vector);
        assert(((w & 0xFFFF_FFFF) as u32) as u64 == w & 0xFFFF_FFFF) by (bit_vector);
    }
    (addr, len)
}

/// Law: the packed word loses nothing — unpacking yields exactly the address
/// and length that were packed.
pub proof fn lemma_buffer_word_round_trip(addr: u32, len: u32)
    ensures
        spec_buffer_word(addr, len) >> 32 == addr,
        spec_buffer_word(addr, len) & 0xFFFF_FFFF == len,
{
    assert((((addr as u64) << 32) | (len as u64)) >> 32 == addr as u64) by (bit_vector);
    assert((((addr as u64) << 32) | (len as u64)) & 0xFFFF_FFFF == len as u64) by (bit_vector);
}

} // verus!
