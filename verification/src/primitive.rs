//! Primitives archived at the root of a buffer, and structure-preserving
//! in-place mutation of them.
//!
//! A signed 32-bit integer archives as its four little-endian bytes. Once a
//! buffer exists, the value can be overwritten in place: a primitive store
//! changes no structure, so the buffer stays well-formed.

use crate::codec::{
    load_i32_at, load_u8_at, load_u32_at, spec_i32_from_le_bytes, spec_i32_to_le_bytes,
    store_i32_at, store_u32_at,
};
use crate::error::Error;
use crate::writer::Writer;
use vstd::bytes::{lemma_auto_spec_u32_to_from_le_bytes, spec_u32_from_le_bytes, spec_u32_to_le_bytes};
use vstd::prelude::*;

verus! {

/// The archived size of an `i32`.
pub const I32_SIZE: usize = 4;

/// The archived alignment of an `i32`.
pub const I32_ALIGN: usize = 4;

/// A well-formed archived `i32` at `pos`: in bounds and aligned. Every bit
/// pattern is a valid value.
pub open spec fn i32_wf_at(b: Seq<u8>, pos: int) -> bool {
    &&& 0 <= pos
    &&& pos % (I32_ALIGN as int) == 0
    &&& pos + I32_SIZE <= b.len()
}

/// The `i32` archived at `pos`.
pub open spec fn spec_i32_at(b: Seq<u8>, pos: int) -> i32 {
    spec_i32_from_le_bytes(b.subrange(pos, pos + I32_SIZE))
}

/// Serializes `v` into a fresh buffer: exactly its four archived bytes, root
/// position 0. Never fails; equal values give byte-identical buffers.
pub fn to_bytes_i32(v: i32) -> (r: Result<(Vec<u8>, usize), Error>)
    ensures
        r matches Ok(p) ==> {
            &&& p.0@ == spec_i32_to_le_bytes(v)
            &&& p.1 == 0
            &&& i32_wf_at(p.0@, 0)
        },
        r is Ok,
{
    proof {
        vstd::bytes::lemma_auto_spec_u32_to_from_le_bytes();
    }
    let mut w = Writer::new();
    let place = match w.reserve(I32_SIZE, I32_ALIGN) {
        Ok(p) => p,
        Err(e) => {
            return Err(e);
        },
    };
    store_i32_at(&mut w.bytes, place.pos, v);
    proof {
        assert(w.bytes@ =~= spec_i32_to_le_bytes(v));
    }
    Ok((w.bytes, 0))
}

/// Checks that `pos` holds a well-formed archived `i32`: in bounds first,
/// then aligned.
pub fn validate_i32(buf: &Vec<u8>, pos: usize) -> (r: Result<(), Error>)
    ensures
        r is Ok <==> i32_wf_at(buf@, pos as int),
        pos + I32_SIZE > buf@.len() ==> r == Result::<(), Error>::Err(Error::OutOfBounds),
        pos + I32_SIZE <= buf@.len() && pos as int % 4 != 0 ==> r == Result::<(), Error>::Err(
            Error::Unaligned,
        ),
{
    let len = buf.len();
    if len < I32_SIZE || pos > len - I32_SIZE {
        return Err(Error::OutOfBounds);
    }
    if pos % I32_ALIGN != 0 {
        return Err(Error::Unaligned);
    }
    Ok(())
}

/// Reads the archived `i32` at `pos`: one load at a known offset.
pub fn access_i32(buf: &Vec<u8>, pos: usize) -> (r: i32)
    requires
        i32_wf_at(buf@, pos as int),
    ensures
        r == spec_i32_at(buf@, pos as int),
{
    let blen = buf.len();
    load_i32_at(buf, pos)
}

/// Overwrites the archived `i32` at `pos` in place. A primitive store
/// changes no structure: every other byte keeps its value and the slot stays
/// well-formed.
pub fn update_i32(buf: &mut Vec<u8>, pos: usize, v: i32)
    requires
        i32_wf_at(old(buf)@, pos as int),
    ensures
        final(buf)@.len() == old(buf)@.len(),
        i32_wf_at(final(buf)@, pos as int),
        spec_i32_at(final(buf)@, pos as int) == v,
        forall|i: int|
            0 <= i < old(buf)@.len() && !(pos <= i < pos + I32_SIZE) ==> final(buf)@[i] == old(
                buf,
            )@[i],
{
    let blen = buf.len();
    proof {
        crate::codec::lemma_i32_le_bytes_roundtrip(v);
    }
    store_i32_at(buf, pos, v);
}

/// The archived size of a `bool`: one byte.
pub const BOOL_SIZE: usize = 1;

/// A well-formed archived `bool` at `pos`: in bounds, and the byte is
/// `0x00` or `0x01` — nothing else encodes a `bool`.
pub open spec fn bool_wf_at(b: Seq<u8>, pos: int) -> bool {
    &&& 0 <= pos
    &&& pos + BOOL_SIZE <= b.len()
    &&& b[pos] <= 1
}

/// The `bool` archived at `pos`.
pub open spec fn spec_bool_at(b: Seq<u8>, pos: int) -> bool {
    b[pos] == 1
}

/// Serializes a `bool` into a fresh buffer: one byte, root position 0.
pub fn to_bytes_bool(v: bool) -> (r: Result<(Vec<u8>, usize), Error>)
    ensures
        r matches Ok(p) ==> {
            &&& p.0@ == seq![if v { 1u8 } else { 0u8 }]
            &&& p.1 == 0
            &&& bool_wf_at(p.0@, 0)
            &&& spec_bool_at(p.0@, 0) == v
        },
        r is Ok,
{
    let mut w = Writer::new();
    match w.write_byte(if v { 1 } else { 0 }) {
        Ok(_) => (),
        Err(e) => {
            return Err(e);
        },
    }
    proof {
        assert(w.bytes@ =~= seq![if v { 1u8 } else { 0u8 }]);
    }
    Ok((w.bytes, 0))
}

/// Checks that `pos` holds a well-formed archived `bool`: in bounds first,
/// then the byte itself.
pub fn validate_bool(buf: &Vec<u8>, pos: usize) -> (r: Result<(), Error>)
    ensures
        r is Ok <==> bool_wf_at(buf@, pos as int),
        pos + BOOL_SIZE > buf@.len() ==> r == Result::<(), Error>::Err(Error::OutOfBounds),
        pos + BOOL_SIZE <= buf@.len() && buf@[pos as int] > 1 ==> r == Result::<(), Error>::Err(
            Error::InvalidBool,
        ),
{
    let len = buf.len();
    if len < BOOL_SIZE || pos > len - BOOL_SIZE {
        return Err(Error::OutOfBounds);
    }
    let b = load_u8_at(buf, pos);
    if b > 1 {
        return Err(Error::InvalidBool);
    }
    Ok(())
}

/// Reads the archived `bool` at `pos`.
pub fn access_bool(buf: &Vec<u8>, pos: usize) -> (r: bool)
    requires
        bool_wf_at(buf@, pos as int),
    ensures
        r == spec_bool_at(buf@, pos as int),
{
    let blen = buf.len();
    load_u8_at(buf, pos) == 1
}

/// The archived size of a `char`: its scalar value, four bytes.
pub const CHAR_SIZE: usize = 4;

/// The archived alignment of a `char`.
pub const CHAR_ALIGN: usize = 4;

/// A Unicode scalar value: any code point that is not a surrogate.
pub open spec fn is_scalar_value(v: u32) -> bool {
    v < 0xD800 || (0xE000 <= v && v <= 0x10FFFF)
}

/// A well-formed archived `char` at `pos`: in bounds, aligned, and a
/// scalar value — surrogates and out-of-range words do not encode a `char`.
pub open spec fn char_wf_at(b: Seq<u8>, pos: int) -> bool {
    &&& 0 <= pos
    &&& pos % (CHAR_ALIGN as int) == 0
    &&& pos + CHAR_SIZE <= b.len()
    &&& is_scalar_value(spec_u32_from_le_bytes(b.subrange(pos, pos + 4)))
}

/// The scalar value archived at `pos`.
pub open spec fn spec_char_at(b: Seq<u8>, pos: int) -> u32 {
    spec_u32_from_le_bytes(b.subrange(pos, pos + 4))
}

/// Relies on `char::from_u32` of std: it returns the `char` of a scalar
/// value, and nothing for a surrogate or an out-of-range word.
pub assume_specification[ char::from_u32 ](v: u32) -> (r: Option<char>)
    ensures
        r is Some <==> is_scalar_value(v),
        r matches Some(c) ==> c as u32 == v,
;

/// Serializes a `char` into a fresh buffer: its scalar value as four
/// little-endian bytes, root position 0.
pub fn to_bytes_char(c: char) -> (r: Result<(Vec<u8>, usize), Error>)
    ensures
        r matches Ok(p) ==> {
            &&& p.0@ == spec_u32_to_le_bytes(c as u32)
            &&& p.1 == 0
            &&& char_wf_at(p.0@, 0)
            &&& spec_char_at(p.0@, 0) == c as u32
        },
        r is Ok,
{
    proof {
        lemma_auto_spec_u32_to_from_le_bytes();
    }
    let mut w = Writer::new();
    let place = match w.reserve(CHAR_SIZE, CHAR_ALIGN) {
        Ok(p) => p,
        Err(e) => {
            return Err(e);
        },
    };
    store_u32_at(&mut w.bytes, place.pos, c as u32);
    proof {
        assert(w.bytes@ =~= spec_u32_to_le_bytes(c as u32));
    }
    Ok((w.bytes, 0))
}

/// Checks that `pos` holds a well-formed archived `char`: in bounds first,
/// then aligned, then a scalar value.
pub fn validate_char(buf: &Vec<u8>, pos: usize) -> (r: Result<(), Error>)
    ensures
        r is Ok <==> char_wf_at(buf@, pos as int),
        pos + CHAR_SIZE > buf@.len() ==> r == Result::<(), Error>::Err(Error::OutOfBounds),
        pos + CHAR_SIZE <= buf@.len() && pos as int % (CHAR_ALIGN as int) != 0 ==> r
            == Result::<(), Error>::Err(Error::Unaligned),
        pos + CHAR_SIZE <= buf@.len() && pos as int % (CHAR_ALIGN as int) == 0
            && !is_scalar_value(spec_char_at(buf@, pos as int)) ==> r == Result::<(), Error>::Err(
            Error::InvalidChar,
        ),
{
    let len = buf.len();
    if len < CHAR_SIZE || pos > len - CHAR_SIZE {
        return Err(Error::OutOfBounds);
    }
    if pos % CHAR_ALIGN != 0 {
        return Err(Error::Unaligned);
    }
    let v = load_u32_at(buf, pos);
    if !(v < 0xD800 || (0xE000 <= v && v <= 0x10FFFF)) {
        return Err(Error::InvalidChar);
    }
    Ok(())
}

/// Reads the archived `char` at `pos`.
pub fn access_char(buf: &Vec<u8>, pos: usize) -> (r: char)
    requires
        char_wf_at(buf@, pos as int),
    ensures
        r as u32 == spec_char_at(buf@, pos as int),
{
    let blen = buf.len();
    let v = load_u32_at(buf, pos);
    match char::from_u32(v) {
        Some(c) => c,
        None => {
            proof {
                assert(false);
            }
            ' '
        },
    }
}

/// Round-trip identity for archived integers: the bytes of `v` are
/// well-formed at the root and decode to `v` itself.
pub proof fn lemma_i32_roundtrip(v: i32)
    ensures
        i32_wf_at(spec_i32_to_le_bytes(v), 0),
        spec_i32_at(spec_i32_to_le_bytes(v), 0) == v,
{
    crate::codec::lemma_i32_le_bytes_roundtrip(v);
    assert(spec_i32_to_le_bytes(v).subrange(0, 4) =~= spec_i32_to_le_bytes(v));
}

} // verus!
