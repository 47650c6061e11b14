//! Archived optionals: the tagged layout, and niched optionals that spend no
//! tag byte at all.
//!
//! Without a niche, an optional is a sum of two variants: `None` is tag 0,
//! `Some` is tag 1 followed by the payload. When `None`, nothing beyond the
//! tag is meaningful and the validator does not look at the payload.

use crate::codec::{
    lemma_i32_le_bytes_roundtrip, load_i32_at, load_u8_at, load_u32_at, spec_i32_from_le_bytes,
    spec_i32_to_le_bytes, store_i32_at, store_u8_at, store_u32_at,
};
use crate::error::Error;
use crate::writer::Writer;
use vstd::bytes::{lemma_auto_spec_u32_to_from_le_bytes, spec_u32_from_le_bytes, spec_u32_to_le_bytes};
use vstd::prelude::*;

verus! {

/// The archived size of an `Option<i32>`: tag byte, three bytes of padding,
/// four bytes of payload.
pub const OPT_I32_SIZE: usize = 8;

/// The archived alignment of sum cells in this configuration.
pub const OPT_I32_ALIGN: usize = 8;

/// The discriminant of an optional: `None` is 0, `Some` is 1.
pub open spec fn spec_opt_i32_tag(v: Option<i32>) -> u8 {
    match v {
        Option::None => 0,
        Option::Some(_) => 1,
    }
}

/// The payload written for an optional; `None` writes zero.
pub open spec fn spec_opt_i32_payload(v: Option<i32>) -> i32 {
    match v {
        Option::None => 0,
        Option::Some(x) => x,
    }
}

/// The archived bytes of an `Option<i32>`: tag, zero padding, payload.
pub open spec fn spec_opt_i32_bytes(v: Option<i32>) -> Seq<u8> {
    seq![spec_opt_i32_tag(v), 0u8, 0u8, 0u8] + spec_i32_to_le_bytes(spec_opt_i32_payload(v))
}

/// A well-formed archived `Option<i32>` at `pos`: in bounds, aligned, tag 0
/// or 1. When the tag is 0 the payload holds no meaning and is not checked.
pub open spec fn opt_i32_wf_at(b: Seq<u8>, pos: int) -> bool {
    &&& 0 <= pos
    &&& pos % (OPT_I32_ALIGN as int) == 0
    &&& pos + OPT_I32_SIZE <= b.len()
    &&& b[pos] <= 1
}

/// The `Option<i32>` archived at `pos`.
pub open spec fn spec_opt_i32_at(b: Seq<u8>, pos: int) -> Option<i32>
    recommends
        opt_i32_wf_at(b, pos),
{
    if b[pos] == 0 {
        Option::None
    } else {
        Option::Some(spec_i32_from_le_bytes(b.subrange(pos + 4, pos + 8)))
    }
}

/// Writes the archived form of `v` over the eight bytes at `pos`.
pub fn resolve_opt_i32(v: &Option<i32>, pos: usize, buf: &mut Vec<u8>)
    requires
        pos + OPT_I32_SIZE <= old(buf)@.len(),
    ensures
        final(buf)@.len() == old(buf)@.len(),
        final(buf)@.subrange(pos as int, pos + OPT_I32_SIZE) == spec_opt_i32_bytes(*v),
        forall|i: int|
            0 <= i < old(buf)@.len() && !(pos <= i < pos + OPT_I32_SIZE) ==> final(buf)@[i] == old(
                buf,
            )@[i],
{
    let blen = buf.len();
    let (tag, payload): (u8, i32) = match v {
        Option::None => (0u8, 0i32),
        Option::Some(x) => (1u8, *x),
    };
    store_u8_at(buf, pos, tag);
    store_u8_at(buf, pos + 1, 0);
    store_u8_at(buf, pos + 2, 0);
    store_u8_at(buf, pos + 3, 0);
    store_i32_at(buf, pos + 4, payload);
    proof {
        assert(buf@.subrange(pos as int, pos + OPT_I32_SIZE) =~= spec_opt_i32_bytes(*v));
    }
}

/// Serializes `v` into a fresh buffer: exactly its eight archived bytes,
/// root position 0. Never fails; equal values give byte-identical buffers.
pub fn to_bytes_opt_i32(v: &Option<i32>) -> (r: Result<(Vec<u8>, usize), Error>)
    ensures
        r matches Ok(p) ==> {
            &&& p.0@ == spec_opt_i32_bytes(*v)
            &&& p.1 == 0
            &&& opt_i32_wf_at(p.0@, 0)
        },
        r is Ok,
{
    let mut w = Writer::new();
    let place = match w.reserve(OPT_I32_SIZE, OPT_I32_ALIGN) {
        Ok(p) => p,
        Err(e) => {
            return Err(e);
        },
    };
    resolve_opt_i32(v, place.pos, &mut w.bytes);
    proof {
        assert(w.bytes@ =~= spec_opt_i32_bytes(*v));
    }
    Ok((w.bytes, 0))
}

/// Checks that `pos` holds a well-formed archived `Option<i32>`. A `None`
/// leaves the payload unchecked.
pub fn validate_opt_i32(buf: &Vec<u8>, pos: usize) -> (r: Result<(), Error>)
    ensures
        r is Ok <==> opt_i32_wf_at(buf@, pos as int),
        pos + OPT_I32_SIZE > buf@.len() ==> r == Result::<(), Error>::Err(Error::OutOfBounds),
        pos + OPT_I32_SIZE <= buf@.len() && pos as int % (OPT_I32_ALIGN as int) != 0 ==> r
            == Result::<(), Error>::Err(Error::Unaligned),
        pos + OPT_I32_SIZE <= buf@.len() && pos as int % (OPT_I32_ALIGN as int) == 0
            && buf@[pos as int] > 1 ==> r == Result::<(), Error>::Err(Error::InvalidDiscriminant),
{
    let len = buf.len();
    if len < OPT_I32_SIZE || pos > len - OPT_I32_SIZE {
        return Err(Error::OutOfBounds);
    }
    if pos % OPT_I32_ALIGN != 0 {
        return Err(Error::Unaligned);
    }
    let tag = load_u8_at(buf, pos);
    if tag > 1 {
        return Err(Error::InvalidDiscriminant);
    }
    Ok(())
}

/// Reads the archived `Option<i32>` at `pos`.
pub fn access_opt_i32(buf: &Vec<u8>, pos: usize) -> (r: Option<i32>)
    requires
        opt_i32_wf_at(buf@, pos as int),
    ensures
        r == spec_opt_i32_at(buf@, pos as int),
{
    let blen = buf.len();
    let tag = load_u8_at(buf, pos);
    if tag == 0 {
        None
    } else {
        Some(load_i32_at(buf, pos + 4))
    }
}

/// Round-trip identity for optionals, `None` and `Some` alike.
pub proof fn lemma_opt_i32_roundtrip(v: Option<i32>)
    ensures
        opt_i32_wf_at(spec_opt_i32_bytes(v), 0),
        spec_opt_i32_at(spec_opt_i32_bytes(v), 0) == v,
{
    lemma_i32_le_bytes_roundtrip(spec_opt_i32_payload(v));
    let b = spec_opt_i32_bytes(v);
    assert(b.subrange(4, 8) =~= spec_i32_to_le_bytes(spec_opt_i32_payload(v)));
}

/// A value with a niche: a 32-bit identifier that is never zero, so zero is
/// free to encode `None`.
pub open spec fn nonzero_opt_wf(v: Option<u32>) -> bool {
    match v {
        Option::Some(x) => x != 0,
        Option::None => true,
    }
}

/// The archived size of a niched optional: just the inner four bytes — the
/// invalid pattern zero stands in for the missing tag.
pub const NICHED_U32_SIZE: usize = 4;

/// The archived alignment of a niched optional.
pub const NICHED_U32_ALIGN: usize = 4;

/// The archived bytes of a niched optional: `None` archives as the inner
/// type's invalid pattern, `Some(x)` as `x` itself.
pub open spec fn spec_niched_u32_bytes(v: Option<u32>) -> Seq<u8> {
    spec_u32_to_le_bytes(
        match v {
            Option::None => 0u32,
            Option::Some(x) => x,
        },
    )
}

/// A well-formed niched optional at `pos`: in bounds and aligned. Every bit
/// pattern is valid — zero means `None`, anything else is the `Some` value.
pub open spec fn niched_u32_wf_at(b: Seq<u8>, pos: int) -> bool {
    &&& 0 <= pos
    &&& pos % (NICHED_U32_ALIGN as int) == 0
    &&& pos + NICHED_U32_SIZE <= b.len()
}

/// The niched optional archived at `pos`.
pub open spec fn spec_niched_u32_at(b: Seq<u8>, pos: int) -> Option<u32> {
    let x = spec_u32_from_le_bytes(b.subrange(pos, pos + 4));
    if x == 0 {
        Option::None
    } else {
        Option::Some(x)
    }
}

/// Serializes a niched optional into a fresh buffer: four bytes, no tag.
pub fn to_bytes_niched_u32(v: &Option<u32>) -> (r: Result<(Vec<u8>, usize), Error>)
    requires
        nonzero_opt_wf(*v),
    ensures
        r matches Ok(p) ==> {
            &&& p.0@ == spec_niched_u32_bytes(*v)
            &&& p.1 == 0
            &&& niched_u32_wf_at(p.0@, 0)
        },
        r is Ok,
{
    proof {
        lemma_auto_spec_u32_to_from_le_bytes();
    }
    let mut w = Writer::new();
    let place = match w.reserve(NICHED_U32_SIZE, NICHED_U32_ALIGN) {
        Ok(p) => p,
        Err(e) => {
            return Err(e);
        },
    };
    let raw = match v {
        Option::None => 0u32,
        Option::Some(x) => *x,
    };
    store_u32_at(&mut w.bytes, place.pos, raw);
    proof {
        assert(w.bytes@ =~= spec_niched_u32_bytes(*v));
    }
    Ok((w.bytes, 0))
}

/// Checks that `pos` holds a niched optional: bounds and alignment are all
/// there is to check, since every bit pattern decodes.
pub fn validate_niched_u32(buf: &Vec<u8>, pos: usize) -> (r: Result<(), Error>)
    ensures
        r is Ok <==> niched_u32_wf_at(buf@, pos as int),
        pos + NICHED_U32_SIZE > buf@.len() ==> r == Result::<(), Error>::Err(Error::OutOfBounds),
        pos + NICHED_U32_SIZE <= buf@.len() && pos as int % (NICHED_U32_ALIGN as int) != 0 ==> r
            == Result::<(), Error>::Err(Error::Unaligned),
{
    let len = buf.len();
    if len < NICHED_U32_SIZE || pos > len - NICHED_U32_SIZE {
        return Err(Error::OutOfBounds);
    }
    if pos % NICHED_U32_ALIGN != 0 {
        return Err(Error::Unaligned);
    }
    Ok(())
}

/// Reads the niched optional at `pos`: zero is `None`, anything else is the
/// `Some` value.
pub fn access_niched_u32(buf: &Vec<u8>, pos: usize) -> (r: Option<u32>)
    requires
        niched_u32_wf_at(buf@, pos as int),
    ensures
        r == spec_niched_u32_at(buf@, pos as int),
        nonzero_opt_wf(r),
{
    let blen = buf.len();
    let x = load_u32_at(buf, pos);
    if x == 0 {
        None
    } else {
        Some(x)
    }
}

/// Round-trip identity for niched optionals: holds for every value the
/// niche can represent, which is exactly those whose `Some` is non-zero.
pub proof fn lemma_niched_u32_roundtrip(v: Option<u32>)
    requires
        nonzero_opt_wf(v),
    ensures
        niched_u32_wf_at(spec_niched_u32_bytes(v), 0),
        spec_niched_u32_at(spec_niched_u32_bytes(v), 0) == v,
{
    lemma_auto_spec_u32_to_from_le_bytes();
    let b = spec_niched_u32_bytes(v);
    assert(b.subrange(0, 4) =~= b);
}

} // verus!
