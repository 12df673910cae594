//! The binary wire encoding of proxy values: a compact, self-describing
//! tagged format. Every exported operation passes compound values across the
//! boundary as one serialized byte buffer in this format. Integers are
//! little-endian; strings are UTF-8 with a byte-length prefix; lists carry an
//! element-count prefix.
//!
//! The encoding round-trips every variant; the native-handle variants decode
//! to the same handle word, which is only meaningful inside the boundary
//! instance that issued it.

use vstd::bytes::*;
use vstd::prelude::*;
use vstd::utf8::*;

use crate::proxy::{dv_entries, dv_list, JSJavaProxy, ProxyVal};

verus! {

broadcast use vstd::std_specs::vec::axiom_vec_index_decreases;

/// Wire tag of each variant.
pub const TAG_NULL: u8 = 0;

pub const TAG_UNDEFINED: u8 = 1;

pub const TAG_STRING: u8 = 2;

pub const TAG_INT: u8 = 3;

pub const TAG_FLOAT: u8 = 4;

pub const TAG_BOOLEAN: u8 = 5;

pub const TAG_ARRAY: u8 = 6;

pub const TAG_NATIVE_ARRAY: u8 = 7;

pub const TAG_OBJECT: u8 = 8;

pub const TAG_NATIVE_OBJECT: u8 = 9;

pub const TAG_FUNCTION: u8 = 10;

pub const TAG_JAVA_FUNCTION: u8 = 11;

pub const TAG_EXCEPTION: u8 = 12;

pub const TAG_COMPLETABLE_FUTURE: u8 = 13;

/// Encoding of one string: the byte length of its UTF-8 form, then the bytes.
pub open spec fn spec_encode_str(s: Seq<char>) -> Seq<u8> {
    spec_u64_to_le_bytes(encode_utf8(s).len() as u64) + encode_utf8(s)
}

/// Encoding of one proxy value.
pub open spec fn spec_encode(v: ProxyVal) -> Seq<u8>
    decreases v,
{
    match v {
        ProxyVal::Null => seq![TAG_NULL],
        ProxyVal::Undefined => seq![TAG_UNDEFINED],
        ProxyVal::Str(s) => seq![TAG_STRING] + spec_encode_str(s),
        ProxyVal::Int(i) => seq![TAG_INT] + spec_u32_to_le_bytes(i as u32),
        ProxyVal::Float(bits) => seq![TAG_FLOAT] + spec_u64_to_le_bytes(bits),
        ProxyVal::Boolean(b) => seq![TAG_BOOLEAN, if b { 1u8 } else { 0u8 }],
        ProxyVal::Arr(items) => seq![TAG_ARRAY] + spec_u64_to_le_bytes(items.len() as u64)
            + spec_encode_list(items),
        ProxyVal::NativeArr(h) => seq![TAG_NATIVE_ARRAY] + spec_u64_to_le_bytes(h),
        ProxyVal::Obj(entries) => seq![TAG_OBJECT] + spec_u64_to_le_bytes(entries.len() as u64)
            + spec_encode_entries(entries),
        ProxyVal::NativeObj(h) => seq![TAG_NATIVE_OBJECT] + spec_u64_to_le_bytes(h),
        ProxyVal::Fun(name, h) => seq![TAG_FUNCTION] + spec_encode_str(name)
            + spec_u64_to_le_bytes(h),
        ProxyVal::HostFun(ctx, f) => seq![TAG_JAVA_FUNCTION] + spec_u32_to_le_bytes(ctx as u32)
            + spec_u32_to_le_bytes(f as u32),
        ProxyVal::Exc(msg, stack) => seq![TAG_EXCEPTION] + spec_encode_str(msg) + spec_encode_str(
            stack,
        ),
        ProxyVal::Future(fut, h) => seq![TAG_COMPLETABLE_FUTURE] + spec_u32_to_le_bytes(fut as u32)
            + spec_u64_to_le_bytes(h),
    }
}

/// Encoding of the elements of an inline array, in order.
pub open spec fn spec_encode_list(items: Seq<ProxyVal>) -> Seq<u8>
    decreases items,
{
    if items.len() == 0 {
        Seq::empty()
    } else {
        spec_encode(items[0]) + spec_encode_list(items.drop_first())
    }
}

/// Encoding of the entries of an inline object, in order: key string, then
/// value.
pub open spec fn spec_encode_entries(entries: Seq<(Seq<char>, ProxyVal)>) -> Seq<u8>
    decreases entries,
{
    if entries.len() == 0 {
        Seq::empty()
    } else {
        spec_encode_str(entries[0].0) + spec_encode(entries[0].1) + spec_encode_entries(
            entries.drop_first(),
        )
    }
}

/// Decoding of one length-prefixed UTF-8 string: the decoded characters and
/// the remaining bytes. Fails on a short buffer and on bytes that are not
/// valid UTF-8.
pub open spec fn spec_decode_str(b: Seq<u8>) -> Option<(Seq<char>, Seq<u8>)> {
    if b.len() < 8 {
        None
    } else {
        let len = spec_u64_from_le_bytes(b.take(8)) as int;
        if 8 + len <= b.len() && valid_utf8(b.subrange(8, 8 + len)) {
            Some((decode_utf8(b.subrange(8, 8 + len)), b.skip(8 + len)))
        } else {
            None
        }
    }
}

/// Decoding of one proxy value from the front of `b`: the value and the
/// remaining bytes, or `None` when `b` does not start with a well-formed
/// encoding.
pub open spec fn spec_decode(b: Seq<u8>) -> Option<(ProxyVal, Seq<u8>)>
    decreases b.len(), 0int,
{
    if b.len() == 0 {
        None
    } else {
        let tag = b[0];
        let r = b.skip(1);
        if tag == TAG_NULL {
            Some((ProxyVal::Null, r))
        } else if tag == TAG_UNDEFINED {
            Some((ProxyVal::Undefined, r))
        } else if tag == TAG_STRING {
            match spec_decode_str(r) {
                Some((s, rest)) => Some((ProxyVal::Str(s), rest)),
                None => None,
            }
        } else if tag == TAG_INT {
            if r.len() >= 4 {
                Some((ProxyVal::Int(spec_u32_from_le_bytes(r.take(4)) as i32), r.skip(4)))
            } else {
                None
            }
        } else if tag == TAG_FLOAT {
            if r.len() >= 8 {
                Some((ProxyVal::Float(spec_u64_from_le_bytes(r.take(8))), r.skip(8)))
            } else {
                None
            }
        } else if tag == TAG_BOOLEAN {
            if r.len() >= 1 && (r[0] == 0 || r[0] == 1) {
                Some((ProxyVal::Boolean(r[0] == 1), r.skip(1)))
            } else {
                None
            }
        } else if tag == TAG_ARRAY {
            if r.len() >= 8 {
                let n = spec_u64_from_le_bytes(r.take(8)) as int;
                match spec_decode_list(r.skip(8), n) {
                    Some((items, rest)) => Some((ProxyVal::Arr(items), rest)),
                    None => None,
                }
            } else {
                None
            }
        } else if tag == TAG_NATIVE_ARRAY {
            if r.len() >= 8 {
                Some((ProxyVal::NativeArr(spec_u64_from_le_bytes(r.take(8))), r.skip(8)))
            } else {
                None
            }
        } else if tag == TAG_OBJECT {
            if r.len() >= 8 {
                let n = spec_u64_from_le_bytes(r.take(8)) as int;
                match spec_decode_entries(r.skip(8), n) {
                    Some((entries, rest)) => Some((ProxyVal::Obj(entries), rest)),
                    None => None,
                }
            } else {
                None
            }
        } else if tag == TAG_NATIVE_OBJECT {
            if r.len() >= 8 {
                Some((ProxyVal::NativeObj(spec_u64_from_le_bytes(r.take(8))), r.skip(8)))
            } else {
                None
            }
        } else if tag == TAG_FUNCTION {
            match spec_decode_str(r) {
                Some((name, rest)) => if rest.len() >= 8 {
                    Some(
                        (
                            ProxyVal::Fun(name, spec_u64_from_le_bytes(rest.take(8))),
                            rest.skip(8),
                        ),
                    )
                } else {
                    None
                },
                None => None,
            }
        } else if tag == TAG_JAVA_FUNCTION {
            if r.len() >= 8 {
                Some(
                    (
                        ProxyVal::HostFun(
                            spec_u32_from_le_bytes(r.take(4)) as i32,
                            spec_u32_from_le_bytes(r.skip(4).take(4)) as i32,
                        ),
                        r.skip(8),
                    ),
                )
            } else {
                None
            }
        } else if tag == TAG_EXCEPTION {
            match spec_decode_str(r) {
                Some((msg, rest)) => match spec_decode_str(rest) {
                    Some((stack, rest2)) => Some((ProxyVal::Exc(msg, stack), rest2)),
                    None => None,
                },
                None => None,
            }
        } else if tag == TAG_COMPLETABLE_FUTURE {
            if r.len() >= 12 {
                Some(
                    (
                        ProxyVal::Future(
                            spec_u32_from_le_bytes(r.take(4)) as i32,
                            spec_u64_from_le_bytes(r.skip(4).take(8)),
                        ),
                        r.skip(12),
                    ),
                )
            } else {
                None
            }
        } else {
            None
        }
    }
}

/// Decoding of `n` consecutive proxy values. The progress guard on the
/// remaining bytes makes termination evident; a decoder never stands still,
/// so the guard holds on every input.
pub open spec fn spec_decode_list(b: Seq<u8>, n: int) -> Option<(Seq<ProxyVal>, Seq<u8>)>
    decreases b.len(), 1int, n,
{
    if n <= 0 {
        Some((Seq::empty(), b))
    } else {
        match spec_decode(b) {
            Some((v, rest)) => if rest.len() < b.len() {
                match spec_decode_list(rest, n - 1) {
                    Some((items, rest2)) => Some((seq![v] + items, rest2)),
                    None => None,
                }
            } else {
                None
            },
            None => None,
        }
    }
}

/// Decoding of `n` consecutive key–value entries.
pub open spec fn spec_decode_entries(b: Seq<u8>, n: int) -> Option<
    (Seq<(Seq<char>, ProxyVal)>, Seq<u8>),
>
    decreases b.len(), 1int, n,
{
    if n <= 0 {
        Some((Seq::empty(), b))
    } else {
        match spec_decode_str(b) {
            Some((key, r1)) => if r1.len() < b.len() {
                match spec_decode(r1) {
                    Some((v, rest)) => if rest.len() < b.len() {
                        match spec_decode_entries(rest, n - 1) {
                            Some((entries, rest2)) => Some((seq![(key, v)] + entries, rest2)),
                            None => None,
                        }
                    } else {
                        None
                    },
                    None => None,
                }
            } else {
                None
            },
            None => None,
        }
    }
}

/// Whether a value's sizes fit the wire format's length words. Every value
/// built at run time satisfies this; it rules out only mathematical values
/// whose sequences could not exist in memory.
pub open spec fn encodable(v: ProxyVal) -> bool
    decreases v,
{
    match v {
        ProxyVal::Str(s) => encode_utf8(s).len() <= u64::MAX,
        ProxyVal::Arr(items) => items.len() <= u64::MAX && encodable_list(items),
        ProxyVal::Obj(entries) => entries.len() <= u64::MAX && encodable_entries(entries),
        ProxyVal::Fun(name, _) => encode_utf8(name).len() <= u64::MAX,
        ProxyVal::Exc(msg, stack) => encode_utf8(msg).len() <= u64::MAX && encode_utf8(
            stack,
        ).len() <= u64::MAX,
        _ => true,
    }
}

/// `encodable`, elementwise.
pub open spec fn encodable_list(items: Seq<ProxyVal>) -> bool
    decreases items,
{
    if items.len() == 0 {
        true
    } else {
        encodable(items[0]) && encodable_list(items.drop_first())
    }
}

/// `encodable`, entrywise: the key string and the value must both fit.
pub open spec fn encodable_entries(entries: Seq<(Seq<char>, ProxyVal)>) -> bool
    decreases entries,
{
    if entries.len() == 0 {
        true
    } else {
        encode_utf8(entries[0].0).len() <= u64::MAX && encodable(entries[0].1)
            && encodable_entries(entries.drop_first())
    }
}

/// Every encoding starts with its tag byte.
pub proof fn lemma_encode_len_pos(v: ProxyVal)
    ensures
        spec_encode(v).len() >= 1,
{
}

/// Decoding a string encoding recovers the string and leaves the rest.
proof fn lemma_decode_str_encode(s: Seq<char>, rest: Seq<u8>)
    requires
        encode_utf8(s).len() <= u64::MAX,
    ensures
        spec_decode_str(spec_encode_str(s) + rest) == Some((s, rest)),
        spec_encode_str(s).len() >= 8,
{
    lemma_auto_spec_u64_to_from_le_bytes();
    let utf8 = encode_utf8(s);
    let len = utf8.len() as u64;
    let b = spec_encode_str(s) + rest;
    assert(b.take(8) =~= spec_u64_to_le_bytes(len));
    assert(b.subrange(8, 8 + len as int) =~= utf8);
    assert(b.skip(8 + len as int) =~= rest);
    encode_utf8_valid_utf8(s);
    encode_utf8_decode_utf8(s);
    let r = spec_decode_str(b);
    assert(r matches Some(p) && p.0 =~= s && p.1 =~= rest);
}

/// Law: the wire encoding round-trips. Decoding the encoding of any value —
/// with any bytes following it — recovers exactly that value and consumes
/// exactly its encoding.
pub proof fn lemma_decode_encode(v: ProxyVal, rest: Seq<u8>)
    requires
        encodable(v),
    ensures
        spec_decode(spec_encode(v) + rest) == Some((v, rest)),
    decreases v, 0int,
{
    lemma_auto_spec_u64_to_from_le_bytes();
    lemma_auto_spec_u32_to_from_le_bytes();
    let b = spec_encode(v) + rest;
    let r = b.skip(1);
    match v {
        ProxyVal::Null => {
            assert(r =~= rest);
        },
        ProxyVal::Undefined => {
            assert(r =~= rest);
        },
        ProxyVal::Str(s) => {
            assert(r =~= spec_encode_str(s) + rest);
            lemma_decode_str_encode(s, rest);
        },
        ProxyVal::Int(i) => {
            assert(r =~= spec_u32_to_le_bytes(i as u32) + rest);
            assert(r.take(4) =~= spec_u32_to_le_bytes(i as u32));
            assert(r.skip(4) =~= rest);
            assert(((i as u32) as i32) == i) by (bit_vector);
        },
        ProxyVal::Float(bits) => {
            assert(r =~= spec_u64_to_le_bytes(bits) + rest);
            assert(r.take(8) =~= spec_u64_to_le_bytes(bits));
            assert(r.skip(8) =~= rest);
        },
        ProxyVal::Boolean(flag) => {
            assert(r =~= seq![if flag { 1u8 } else { 0u8 }] + rest);
            assert(r.skip(1) =~= rest);
        },
        ProxyVal::Arr(items) => {
            assert(r =~= spec_u64_to_le_bytes(items.len() as u64) + (spec_encode_list(items)
                + rest));
            assert(r.take(8) =~= spec_u64_to_le_bytes(items.len() as u64));
            assert(r.skip(8) =~= spec_encode_list(items) + rest);
            lemma_decode_list_encode(items, rest);
        },
        ProxyVal::NativeArr(h) => {
            assert(r =~= spec_u64_to_le_bytes(h) + rest);
            assert(r.take(8) =~= spec_u64_to_le_bytes(h));
            assert(r.skip(8) =~= rest);
        },
        ProxyVal::Obj(entries) => {
            assert(r =~= spec_u64_to_le_bytes(entries.len() as u64) + (spec_encode_entries(entries)
                + rest));
            assert(r.take(8) =~= spec_u64_to_le_bytes(entries.len() as u64));
            assert(r.skip(8) =~= spec_encode_entries(entries) + rest);
            lemma_decode_entries_encode(entries, rest);
        },
        ProxyVal::NativeObj(h) => {
            assert(r =~= spec_u64_to_le_bytes(h) + rest);
            assert(r.take(8) =~= spec_u64_to_le_bytes(h));
            assert(r.skip(8) =~= rest);
        },
        ProxyVal::Fun(name, h) => {
            assert(r =~= spec_encode_str(name) + (spec_u64_to_le_bytes(h) + rest));
            lemma_decode_str_encode(name, spec_u64_to_le_bytes(h) + rest);
            let r2 = spec_u64_to_le_bytes(h) + rest;
            assert(r2.take(8) =~= spec_u64_to_le_bytes(h));
            assert(r2.skip(8) =~= rest);
        },
        ProxyVal::HostFun(c, f) => {
            assert(r =~= spec_u32_to_le_bytes(c as u32) + (spec_u32_to_le_bytes(f as u32) + rest));
            assert(r.take(4) =~= spec_u32_to_le_bytes(c as u32));
            assert(r.skip(4).take(4) =~= spec_u32_to_le_bytes(f as u32));
            assert(r.skip(8) =~= rest);
            assert(((c as u32) as i32) == c) by (bit_vector);
            assert(((f as u32) as i32) == f) by (bit_vector);
        },
        ProxyVal::Exc(msg, stack) => {
            assert(r =~= spec_encode_str(msg) + (spec_encode_str(stack) + rest));
            lemma_decode_str_encode(msg, spec_encode_str(stack) + rest);
            lemma_decode_str_encode(stack, rest);
        },
        ProxyVal::Future(fut, h) => {
            assert(r =~= spec_u32_to_le_bytes(fut as u32) + (spec_u64_to_le_bytes(h) + rest));
            assert(r.take(4) =~= spec_u32_to_le_bytes(fut as u32));
            assert(r.skip(4).take(8) =~= spec_u64_to_le_bytes(h));
            assert(r.skip(12) =~= rest);
            assert(((fut as u32) as i32) == fut) by (bit_vector);
        },
    }
}

/// Law: a list encoding round-trips, element by element.
pub proof fn lemma_decode_list_encode(items: Seq<ProxyVal>, rest: Seq<u8>)
    requires
        items.len() <= u64::MAX,
        encodable_list(items),
    ensures
        spec_decode_list(spec_encode_list(items) + rest, items.len() as int) == Some(
            (items, rest),
        ),
    decreases items, 1int,
{
    if items.len() == 0 {
        assert(spec_encode_list(items) + rest =~= rest);
        let r = spec_decode_list(rest, 0);
        assert(r matches Some(p) && p.0 =~= items && p.1 =~= rest);
    } else {
        let head = items[0];
        let tail = items.drop_first();
        let tail_enc = spec_encode_list(tail) + rest;
        let b = spec_encode_list(items) + rest;
        assert(b =~= spec_encode(head) + tail_enc);
        lemma_decode_encode(head, tail_enc);
        lemma_encode_len_pos(head);
        assert(tail_enc.len() < b.len());
        lemma_decode_list_encode(tail, rest);
        let r = spec_decode_list(b, items.len() as int);
        assert(r matches Some(p) && p.0 =~= items && p.1 =~= rest);
    }
}

/// Law: an entry-list encoding round-trips, entry by entry.
pub proof fn lemma_decode_entries_encode(entries: Seq<(Seq<char>, ProxyVal)>, rest: Seq<u8>)
    requires
        entries.len() <= u64::MAX,
        encodable_entries(entries),
    ensures
        spec_decode_entries(spec_encode_entries(entries) + rest, entries.len() as int) == Some(
            (entries, rest),
        ),
    decreases entries, 1int,
{
    if entries.len() == 0 {
        assert(spec_encode_entries(entries) + rest =~= rest);
        let r = spec_decode_entries(rest, 0);
        assert(r matches Some(p) && p.0 =~= entries && p.1 =~= rest);
    } else {
        let key = entries[0].0;
        let head = entries[0].1;
        let tail = entries.drop_first();
        let after_key = spec_encode(head) + (spec_encode_entries(tail) + rest);
        let tail_enc = spec_encode_entries(tail) + rest;
        let b = spec_encode_entries(entries) + rest;
        assert(b =~= spec_encode_str(key) + after_key);
        lemma_decode_str_encode(key, after_key);
        assert(after_key.len() < b.len());
        lemma_decode_encode(head, tail_enc);
        lemma_encode_len_pos(head);
        assert(tail_enc.len() < b.len());
        lemma_decode_entries_encode(tail, rest);
        let r = spec_decode_entries(b, entries.len() as int);
        assert(r matches Some(p) && p.0 =~= entries && p.1 =~= rest);
    }
}

/// Encoding a concatenation of lists encodes each part in turn.
pub proof fn lemma_encode_list_concat(a: Seq<ProxyVal>, b: Seq<ProxyVal>)
    ensures
        spec_encode_list(a + b) == spec_encode_list(a) + spec_encode_list(b),
    decreases a.len(),
{
    if a.len() == 0 {
        assert(a + b =~= b);
        assert(spec_encode_list(a) + spec_encode_list(b) =~= spec_encode_list(b));
    } else {
        assert((a + b).drop_first() =~= a.drop_first() + b);
        lemma_encode_list_concat(a.drop_first(), b);
        assert(spec_encode_list(a + b) =~= spec_encode_list(a) + spec_encode_list(b));
    }
}

/// Encoding a concatenation of entry lists encodes each part in turn.
pub proof fn lemma_encode_entries_concat(
    a: Seq<(Seq<char>, ProxyVal)>,
    b: Seq<(Seq<char>, ProxyVal)>,
)
    ensures
        spec_encode_entries(a + b) == spec_encode_entries(a) + spec_encode_entries(b),
    decreases a.len(),
{
    if a.len() == 0 {
        assert(a + b =~= b);
        assert(spec_encode_entries(a) + spec_encode_entries(b) =~= spec_encode_entries(b));
    } else {
        assert((a + b).drop_first() =~= a.drop_first() + b);
        lemma_encode_entries_concat(a.drop_first(), b);
        assert(spec_encode_entries(a + b) =~= spec_encode_entries(a) + spec_encode_entries(b));
    }
}

/// Encoding of a one-element list is the encoding of its element.
pub proof fn lemma_encode_list_singleton(v: ProxyVal)
    ensures
        spec_encode_list(seq![v]) == spec_encode(v),
{
    assert(seq![v].drop_first() =~= Seq::<ProxyVal>::empty());
    assert(spec_encode_list(Seq::<ProxyVal>::empty()) =~= Seq::<u8>::empty());
    assert(spec_encode_list(seq![v]) =~= spec_encode(v));
}

/// Encoding of a one-entry list is the key encoding followed by the value
/// encoding.
pub proof fn lemma_encode_entries_singleton(e: (Seq<char>, ProxyVal))
    ensures
        spec_encode_entries(seq![e]) == spec_encode_str(e.0) + spec_encode(e.1),
{
    assert(seq![e].drop_first() =~= Seq::<(Seq<char>, ProxyVal)>::empty());
    assert(spec_encode_entries(Seq::<(Seq<char>, ProxyVal)>::empty()) =~= Seq::<u8>::empty());
    assert(spec_encode_entries(seq![e]) =~= spec_encode_str(e.0) + spec_encode(e.1));
}

/// Append the little-endian bytes of `x`.
fn push_u64(out: &mut Vec<u8>, x: u64)
    ensures
        final(out)@ == old(out)@ + spec_u64_to_le_bytes(x),
{
    let mut bs = u64_to_le_bytes(x);
    out.append(&mut bs);
}

/// Append the little-endian bytes of `x`.
fn push_u32(out: &mut Vec<u8>, x: u32)
    ensures
        final(out)@ == old(out)@ + spec_u32_to_le_bytes(x),
{
    let mut bs = u32_to_le_bytes(x);
    out.append(&mut bs);
}

/// Append the length-prefixed UTF-8 bytes of `s`.
fn push_str(out: &mut Vec<u8>, s: &str)
    ensures
        final(out)@ == old(out)@ + spec_encode_str(s@),
{
    let mut bytes = s.as_bytes_vec();
    push_u64(out, bytes.len() as u64);
    out.append(&mut bytes);
}

/// Append the encoding of `p`.
fn encode_into(out: &mut Vec<u8>, p: &JSJavaProxy)
    ensures
        final(out)@ == old(out)@ + spec_encode(p.dv()),
    decreases *p,
{
    match p {
        JSJavaProxy::Null => {
            out.push(TAG_NULL);
            assert(final(out)@ =~= old(out)@ + spec_encode(p.dv()));
        },
        JSJavaProxy::Undefined => {
            out.push(TAG_UNDEFINED);
            assert(final(out)@ =~= old(out)@ + spec_encode(p.dv()));
        },
        JSJavaProxy::String(s) => {
            out.push(TAG_STRING);
            push_str(out, s.as_str());
            assert(final(out)@ =~= old(out)@ + spec_encode(p.dv()));
        },
        JSJavaProxy::Int(i) => {
            out.push(TAG_INT);
            push_u32(out, #[verifier::truncate] (*i as u32));
            assert(final(out)@ =~= old(out)@ + spec_encode(p.dv()));
        },
        JSJavaProxy::Float(bits) => {
            out.push(TAG_FLOAT);
            push_u64(out, *bits);
            assert(final(out)@ =~= old(out)@ + spec_encode(p.dv()));
        },
        JSJavaProxy::Boolean(b) => {
            out.push(TAG_BOOLEAN);
            out.push(if *b { 1u8 } else { 0u8 });
            assert(final(out)@ =~= old(out)@ + spec_encode(p.dv()));
        },
        JSJavaProxy::Array(items) => {
            out.push(TAG_ARRAY);
            push_u64(out, items.len() as u64);
            let ghost prefix = out@;
            let ghost models = dv_list(items@);
            proof {
                crate::proxy::lemma_dv_list(items@);
            }
            let n = items.len();
            let mut i: usize = 0;
            while i < n
                invariant
                    *p is Array,
                    p->Array_0 == *items,
                    i <= n,
                    n == items@.len(),
                    models == dv_list(items@),
                    models.len() == n,
                    forall|k: int| 0 <= k < n ==> models[k] == items@[k].dv(),
                    out@ == prefix + spec_encode_list(models.take(i as int)),
                decreases n - i,
            {
                proof {
                    assert(decreases_to!(*p => p->Array_0));
                    assert(decreases_to!(*items => items@));
                    assert(decreases_to!(items@ => items@[i as int]));
                    assert(decreases_to!(*p => items@[i as int]));
                }
                encode_into(out, &items[i]);
                proof {
                    assert(models.take(i + 1) =~= models.take(i as int) + seq![models[i as int]]);
                    lemma_encode_list_concat(models.take(i as int), seq![models[i as int]]);
                    lemma_encode_list_singleton(models[i as int]);
                }
                i = i + 1;
            }
            proof {
                assert(models.take(n as int) =~= models);
                assert(final(out)@ =~= old(out)@ + spec_encode(p.dv()));
            }
        },
        JSJavaProxy::NativeArray(h) => {
            out.push(TAG_NATIVE_ARRAY);
            push_u64(out, *h);
            assert(final(out)@ =~= old(out)@ + spec_encode(p.dv()));
        },
        JSJavaProxy::Object(entries) => {
            out.push(TAG_OBJECT);
            push_u64(out, entries.len() as u64);
            let ghost prefix = out@;
            let ghost models = dv_entries(entries@);
            proof {
                crate::proxy::lemma_dv_entries(entries@);
            }
            let n = entries.len();
            let mut i: usize = 0;
            while i < n
                invariant
                    *p is Object,
                    p->Object_0 == *entries,
                    i <= n,
                    n == entries@.len(),
                    models == dv_entries(entries@),
                    models.len() == n,
                    forall|k: int|
                        0 <= k < n ==> models[k] == (entries@[k].0@, entries@[k].1.dv()),
                    out@ == prefix + spec_encode_entries(models.take(i as int)),
                decreases n - i,
            {
                push_str(out, entries[i].0.as_str());
                proof {
                    assert(decreases_to!(*p => p->Object_0));
                    assert(decreases_to!(*entries => entries@));
                    assert(decreases_to!(entries@ => entries@[i as int]));
                    assert(decreases_to!(entries@[i as int] => entries@[i as int].1));
                    assert(decreases_to!(*p => entries@[i as int].1));
                }
                encode_into(out, &entries[i].1);
                proof {
                    assert(models.take(i + 1) =~= models.take(i as int) + seq![models[i as int]]);
                    lemma_encode_entries_concat(models.take(i as int), seq![models[i as int]]);
                    lemma_encode_entries_singleton(models[i as int]);
                }
                i = i + 1;
            }
            proof {
                assert(models.take(n as int) =~= models);
                assert(final(out)@ =~= old(out)@ + spec_encode(p.dv()));
            }
        },
        JSJavaProxy::NativeObject(h) => {
            out.push(TAG_NATIVE_OBJECT);
            push_u64(out, *h);
            assert(final(out)@ =~= old(out)@ + spec_encode(p.dv()));
        },
        JSJavaProxy::Function(name, h) => {
            out.push(TAG_FUNCTION);
            push_str(out, name.as_str());
            push_u64(out, *h);
            assert(final(out)@ =~= old(out)@ + spec_encode(p.dv()));
        },
        JSJavaProxy::JavaFunction(ctx, f) => {
            out.push(TAG_JAVA_FUNCTION);
            push_u32(out, #[verifier::truncate] (*ctx as u32));
            push_u32(out, #[verifier::truncate] (*f as u32));
            assert(final(out)@ =~= old(out)@ + spec_encode(p.dv()));
        },
        JSJavaProxy::Exception(msg, stack) => {
            out.push(TAG_EXCEPTION);
            push_str(out, msg.as_str());
            push_str(out, stack.as_str());
            assert(final(out)@ =~= old(out)@ + spec_encode(p.dv()));
        },
        JSJavaProxy::CompletableFuture(fut, h) => {
            out.push(TAG_COMPLETABLE_FUTURE);
            push_u32(out, #[verifier::truncate] (*fut as u32));
            push_u64(out, *h);
            assert(final(out)@ =~= old(out)@ + spec_encode(p.dv()));
        },
    }
}

/// Serialize one proxy value into its wire encoding.
pub fn encode(p: &JSJavaProxy) -> (out: Vec<u8>)
    ensures
        out@ == spec_encode(p.dv()),
{
    let mut out = Vec::new();
    encode_into(&mut out, p);
    proof {
        assert(out@ =~= spec_encode(p.dv()));
    }
    out
}

/// Relies on std's `str::from_utf8`: it succeeds exactly on valid UTF-8 and
/// yields the characters those bytes encode (the copy into an owned `String`
/// keeps the characters).
#[verifier::external_body]
fn string_from_utf8(bytes: &[u8]) -> (r: Option<String>)
    ensures
        r matches Some(s) ==> valid_utf8(bytes@) && s@ == decode_utf8(bytes@),
        r is None ==> !valid_utf8(bytes@),
{
    match core::str::from_utf8(bytes) {
        Ok(s) => Some(s.to_string()),
        Err(_) => None,
    }
}

/// Read one little-endian `u64` from the front of `b`.
fn take_u64<'a>(b: &'a [u8]) -> (r: Option<(u64, &'a [u8])>)
    ensures
        match r {
            Some((x, rest)) => b@.len() >= 8 && x == spec_u64_from_le_bytes(b@.take(8)) && rest@
                == b@.skip(8),
            None => b@.len() < 8,
        },
{
    if b.len() >= 8 {
        let head = vstd::slice::slice_subrange(b, 0, 8);
        let x = u64_from_le_bytes(head);
        let rest = vstd::slice::slice_subrange(b, 8, b.len());
        proof {
            assert(head@ =~= b@.take(8));
            assert(rest@ =~= b@.skip(8));
        }
        Some((x, rest))
    } else {
        None
    }
}

/// Read one little-endian `u32` from the front of `b`.
fn take_u32<'a>(b: &'a [u8]) -> (r: Option<(u32, &'a [u8])>)
    ensures
        match r {
            Some((x, rest)) => b@.len() >= 4 && x == spec_u32_from_le_bytes(b@.take(4)) && rest@
                == b@.skip(4),
            None => b@.len() < 4,
        },
{
    if b.len() >= 4 {
        let head = vstd::slice::slice_subrange(b, 0, 4);
        let x = u32_from_le_bytes(head);
        let rest = vstd::slice::slice_subrange(b, 4, b.len());
        proof {
            assert(head@ =~= b@.take(4));
            assert(rest@ =~= b@.skip(4));
        }
        Some((x, rest))
    } else {
        None
    }
}

/// Read one length-prefixed UTF-8 string from the front of `b`.
fn take_str<'a>(b: &'a [u8]) -> (r: Option<(String, &'a [u8])>)
    ensures
        match r {
            Some((s, rest)) => {
                &&& spec_decode_str(b@) matches Some(sr)
                &&& sr.0 == s@
                &&& sr.1 == rest@
                &&& rest@.len() + 8 <= b@.len()
            },
            None => spec_decode_str(b@) is None,
        },
{
    match take_u64(b) {
        Some((len64, r1)) => {
            if len64 <= r1.len() as u64 {
                let len = len64 as usize;
                let sb = vstd::slice::slice_subrange(r1, 0, len);
                let rest = vstd::slice::slice_subrange(r1, len, r1.len());
                proof {
                    assert(sb@ =~= b@.subrange(8, 8 + len64 as int));
                    assert(rest@ =~= b@.skip(8 + len64 as int));
                }
                match string_from_utf8(sb) {
                    Some(s) => Some((s, rest)),
                    None => None,
                }
            } else {
                None
            }
        },
        None => None,
    }
}

/// Deserialize one proxy value from the front of `b`, returning it with the
/// bytes that follow its encoding; `None` exactly when `b` does not start
/// with a well-formed encoding.
pub fn decode_value<'a>(b: &'a [u8]) -> (r: Option<(JSJavaProxy, &'a [u8])>)
    ensures
        match r {
            Some((p, rest)) => {
                &&& spec_decode(b@) matches Some(sr)
                &&& sr.0 == p.dv()
                &&& sr.1 == rest@
                &&& rest@.len() < b@.len()
            },
            None => spec_decode(b@) is None,
        },
    decreases b@.len(), 0int,
{
    if b.len() == 0 {
        return None;
    }
    let tag = *vstd::slice::slice_index_get(b, 0);
    let r1 = vstd::slice::slice_subrange(b, 1, b.len());
    proof {
        assert(r1@ =~= b@.skip(1));
    }
    if tag == TAG_NULL {
        Some((JSJavaProxy::Null, r1))
    } else if tag == TAG_UNDEFINED {
        Some((JSJavaProxy::Undefined, r1))
    } else if tag == TAG_STRING {
        match take_str(r1) {
            Some((s, rest)) => Some((JSJavaProxy::String(s), rest)),
            None => None,
        }
    } else if tag == TAG_INT {
        match take_u32(r1) {
            Some((x, rest)) => Some(
                (JSJavaProxy::Int(#[verifier::truncate] (x as i32)), rest),
            ),
            None => None,
        }
    } else if tag == TAG_FLOAT {
        match take_u64(r1) {
            Some((x, rest)) => Some((JSJavaProxy::Float(x), rest)),
            None => None,
        }
    } else if tag == TAG_BOOLEAN {
        if r1.len() >= 1 {
            let byte = *vstd::slice::slice_index_get(r1, 0);
            let rest = vstd::slice::slice_subrange(r1, 1, r1.len());
            proof {
                assert(rest@ =~= r1@.skip(1));
            }
            if byte == 0 {
                Some((JSJavaProxy::Boolean(false), rest))
            } else if byte == 1 {
                Some((JSJavaProxy::Boolean(true), rest))
            } else {
                None
            }
        } else {
            None
        }
    } else if tag == TAG_ARRAY {
        match take_u64(r1) {
            Some((n, r2)) => {
                match decode_list(r2, n) {
                    Some((items, rest)) => Some((JSJavaProxy::Array(items), rest)),
                    None => None,
                }
            },
            None => None,
        }
    } else if tag == TAG_NATIVE_ARRAY {
        match take_u64(r1) {
            Some((h, rest)) => Some((JSJavaProxy::NativeArray(h), rest)),
            None => None,
        }
    } else if tag == TAG_OBJECT {
        match take_u64(r1) {
            Some((n, r2)) => {
                match decode_entries(r2, n) {
                    Some((entries, rest)) => Some((JSJavaProxy::Object(entries), rest)),
                    None => None,
                }
            },
            None => None,
        }
    } else if tag == TAG_NATIVE_OBJECT {
        match take_u64(r1) {
            Some((h, rest)) => Some((JSJavaProxy::NativeObject(h), rest)),
            None => None,
        }
    } else if tag == TAG_FUNCTION {
        match take_str(r1) {
            Some((name, r2)) => match take_u64(r2) {
                Some((h, rest)) => Some((JSJavaProxy::Function(name, h), rest)),
                None => None,
            },
            None => None,
        }
    } else if tag == TAG_JAVA_FUNCTION {
        match take_u32(r1) {
            Some((c, r2)) => match take_u32(r2) {
                Some((f, rest)) => {
                    proof {
                        assert(r2@.take(4) =~= r1@.skip(4).take(4));
                        assert(r2@.skip(4) =~= r1@.skip(8));
                        assert(r1@.len() >= 8);
                    }
                    Some(
                        (
                            JSJavaProxy::JavaFunction(
                                #[verifier::truncate] (c as i32),
                                #[verifier::truncate] (f as i32),
                            ),
                            rest,
                        ),
                    )
                },
                None => None,
            },
            None => None,
        }
    } else if tag == TAG_EXCEPTION {
        match take_str(r1) {
            Some((msg, r2)) => match take_str(r2) {
                Some((stack, rest)) => Some((JSJavaProxy::Exception(msg, stack), rest)),
                None => None,
            },
            None => None,
        }
    } else if tag == TAG_COMPLETABLE_FUTURE {
        match take_u32(r1) {
            Some((fut, r2)) => match take_u64(r2) {
                Some((h, rest)) => {
                    proof {
                        assert(r2@.take(8) =~= r1@.skip(4).take(8));
                        assert(r2@.skip(8) =~= r1@.skip(12));
                        assert(r1@.len() >= 12);
                    }
                    Some(
                        (JSJavaProxy::CompletableFuture(#[verifier::truncate] (fut as i32), h), rest),
                    )
                },
                None => None,
            },
            None => None,
        }
    } else {
        None
    }
}

/// Deserialize `n` consecutive proxy values.
fn decode_list<'a>(b: &'a [u8], n: u64) -> (r: Option<(Vec<JSJavaProxy>, &'a [u8])>)
    ensures
        match r {
            Some((items, rest)) => {
                &&& spec_decode_list(b@, n as int) matches Some(sr)
                &&& sr.0 == dv_list(items@)
                &&& sr.1 == rest@
                &&& rest@.len() <= b@.len()
            },
            None => spec_decode_list(b@, n as int) is None,
        },
    decreases b@.len(), 1int, n,
{
    if n == 0 {
        proof {
            assert(dv_list(Seq::<JSJavaProxy>::empty()) =~= Seq::<ProxyVal>::empty());
        }
        Some((Vec::new(), b))
    } else {
        match decode_value(b) {
            Some((v, rest)) => {
                match decode_list(rest, n - 1) {
                    Some((mut items, rest2)) => {
                        let ghost tail = items@;
                        items.insert(0, v);
                        proof {
                            assert(items@ =~= seq![v] + tail);
                            assert(items@.drop_first() =~= tail);
                            assert(dv_list(items@) =~= seq![v.dv()] + dv_list(tail));
                        }
                        Some((items, rest2))
                    },
                    None => None,
                }
            },
            None => None,
        }
    }
}

/// Deserialize `n` consecutive key–value entries.
fn decode_entries<'a>(b: &'a [u8], n: u64) -> (r: Option<(Vec<(String, JSJavaProxy)>, &'a [u8])>)
    ensures
        match r {
            Some((entries, rest)) => {
                &&& spec_decode_entries(b@, n as int) matches Some(sr)
                &&& sr.0 == dv_entries(entries@)
                &&& sr.1 == rest@
                &&& rest@.len() <= b@.len()
            },
            None => spec_decode_entries(b@, n as int) is None,
        },
    decreases b@.len(), 1int, n,
{
    if n == 0 {
        proof {
            assert(dv_entries(Seq::<(String, JSJavaProxy)>::empty()) =~= Seq::<
                (Seq<char>, ProxyVal),
            >::empty());
        }
        Some((Vec::new(), b))
    } else {
        match take_str(b) {
            Some((key, r1)) => {
                match decode_value(r1) {
                    Some((v, rest)) => {
                        match decode_entries(rest, n - 1) {
                            Some((mut entries, rest2)) => {
                                let ghost tail = entries@;
                                entries.insert(0, (key, v));
                                proof {
                                    assert(entries@ =~= seq![(key, v)] + tail);
                                    assert(entries@.drop_first() =~= tail);
                                    assert(dv_entries(entries@) =~= seq![(key@, v.dv())]
                                        + dv_entries(tail));
                                }
                                Some((entries, rest2))
                            },
                            None => None,
                        }
                    },
                    None => None,
                }
            },
            None => None,
        }
    }
}

/// Deserialize one proxy value from a complete buffer: succeeds exactly when
/// the whole buffer is one well-formed encoding.
pub fn decode(bytes: &[u8]) -> (r: Option<JSJavaProxy>)
    ensures
        match r {
            Some(p) => spec_decode(bytes@) matches Some(sr) && sr.0 == p.dv() && sr.1.len() == 0,
            None => !(spec_decode(bytes@) matches Some(sr) && sr.1.len() == 0),
        },
{
    match decode_value(bytes) {
        Some((p, rest)) => {
            if rest.len() == 0 {
                Some(p)
            } else {
                None
            }
        },
        None => None,
    }
}

} // verus!
