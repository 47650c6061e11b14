//! Owned boxes: a value archived behind a relative pointer.
//!
//! The pointee is serialized first; the box's archived form is a single
//! four-byte offset cell pointing back at it. Dereferencing is one addition
//! and one load; the validator checks the target's bounds and alignment.

use crate::codec::{
    lemma_i32_le_bytes_roundtrip, load_i32_at, spec_i32_from_le_bytes, spec_i32_to_le_bytes,
    spec_zeros, store_i32_at,
};
use crate::error::Error;
use crate::layout::{lemma_align_up, spec_align_up};
use crate::relptr::{apply_offset, rel_offset};
use crate::writer::Writer;
use vstd::prelude::*;

verus! {

/// The archived size of a box cell: one relative pointer.
pub const BOX_SIZE: usize = 4;

/// The archived alignment of a box cell.
pub const BOX_ALIGN: usize = 4;

/// A well-formed archived box of an `i32` at `pos`: cell in bounds and
/// aligned, target aligned and entirely before the cell.
pub open spec fn box_i32_wf_at(b: Seq<u8>, pos: int) -> bool {
    &&& 0 <= pos
    &&& pos % (BOX_ALIGN as int) == 0
    &&& pos + BOX_SIZE <= b.len()
    &&& {
        let q = pos + spec_i32_from_le_bytes(b.subrange(pos, pos + 4));
        &&& 0 <= q
        &&& q + 4 <= pos
        &&& q % 4 == 0
    }
}

/// The boxed value archived at `pos`: the pointee the cell leads to.
pub open spec fn spec_box_i32_at(b: Seq<u8>, pos: int) -> i32
    recommends
        box_i32_wf_at(b, pos),
{
    let q = pos + spec_i32_from_le_bytes(b.subrange(pos, pos + 4));
    spec_i32_from_le_bytes(b.subrange(q, q + 4))
}

/// What serializing a boxed `i32` appends to `b`, and the cell's position:
/// the pointee at the next aligned position, then the cell.
pub open spec fn spec_box_i32_ser(v: i32, b: Seq<u8>) -> (Seq<u8>, int) {
    let q = spec_align_up(b.len() as int, BOX_ALIGN as int);
    let p = q + 4;
    (
        b + spec_zeros(q - b.len()) + spec_i32_to_le_bytes(v) + spec_i32_to_le_bytes(
            (q - p) as i32,
        ),
        p,
    )
}

/// Serializes a boxed `i32` into a fresh buffer: the pointee, then the
/// cell, whose position — the root — is `len - 4`. Never fails: the offset
/// of a freshly written pointee always fits.
pub fn to_bytes_box_i32(v: i32) -> (r: Result<(Vec<u8>, usize), Error>)
    ensures
        r matches Ok(p) ==> {
            &&& p.0@ == spec_box_i32_ser(v, Seq::empty()).0
            &&& p.1 == spec_box_i32_ser(v, Seq::empty()).1
            &&& p.1 + BOX_SIZE == p.0@.len()
            &&& box_i32_wf_at(p.0@, p.1 as int)
            &&& spec_box_i32_at(p.0@, p.1 as int) == v
        },
        r is Ok,
{
    let mut w = Writer::new();
    proof {
        assert(w.bytes@ =~= Seq::<u8>::empty());
        lemma_align_up(0, BOX_ALIGN as int);
    }
    let pointee = match w.reserve(4, BOX_ALIGN) {
        Ok(p) => p,
        Err(e) => {
            return Err(e);
        },
    };
    store_i32_at(&mut w.bytes, pointee.pos, v);
    let cell = match w.reserve(4, BOX_ALIGN) {
        Ok(p) => p,
        Err(e) => {
            return Err(e);
        },
    };
    let d = match rel_offset(cell.pos, pointee.pos) {
        Ok(d) => d,
        Err(e) => {
            return Err(e);
        },
    };
    store_i32_at(&mut w.bytes, cell.pos, d);
    proof {
        let dd = pointee.pos as int - cell.pos as int;
        assert(d == dd as i32);
        lemma_i32_le_bytes_roundtrip(d);
        lemma_i32_le_bytes_roundtrip(v);
        assert(w.bytes@ =~= spec_box_i32_ser(v, Seq::empty()).0);
        assert(w.bytes@.subrange(cell.pos as int, cell.pos + 4) == spec_i32_to_le_bytes(d));
        assert(w.bytes@.subrange(pointee.pos as int, pointee.pos + 4) == spec_i32_to_le_bytes(v));
    }
    Ok((w.bytes, cell.pos))
}

/// Checks the archived box at `pos`: cell bounds first, then its
/// alignment, then the target — out of the buffer is out of bounds, at or
/// past the cell is an overlap, misaligned is unaligned.
pub fn validate_box_i32(buf: &Vec<u8>, pos: usize) -> (r: Result<(), Error>)
    ensures
        r is Ok <==> box_i32_wf_at(buf@, pos as int),
        pos + BOX_SIZE > buf@.len() ==> r == Result::<(), Error>::Err(Error::OutOfBounds),
        r is Err ==> (r == Result::<(), Error>::Err(Error::OutOfBounds) || r == Result::<
            (),
            Error,
        >::Err(Error::Unaligned) || r == Result::<(), Error>::Err(Error::OverlapError)),
{
    let len = buf.len();
    if len < BOX_SIZE || pos > len - BOX_SIZE {
        return Err(Error::OutOfBounds);
    }
    if pos % BOX_ALIGN != 0 {
        return Err(Error::Unaligned);
    }
    let d = load_i32_at(buf, pos);
    let q = match apply_offset(pos, d) {
        Ok(q) => q,
        Err(_) => {
            return Err(Error::OutOfBounds);
        },
    };
    if pos < 4 || q > pos - 4 {
        return Err(Error::OverlapError);
    }
    if q % 4 != 0 {
        return Err(Error::Unaligned);
    }
    Ok(())
}

/// Dereferences the archived box at `pos`: one addition, one load.
pub fn access_box_i32(buf: &Vec<u8>, pos: usize) -> (r: i32)
    requires
        box_i32_wf_at(buf@, pos as int),
    ensures
        r == spec_box_i32_at(buf@, pos as int),
{
    let blen = buf.len();
    let d = load_i32_at(buf, pos);
    match apply_offset(pos, d) {
        Ok(q) => load_i32_at(buf, q),
        Err(_) => {
            proof {
                assert(false);
            }
            0
        },
    }
}

/// Overwrites the boxed value in place, through the pointer: a primitive
/// store into the pointee, changing no structure.
pub fn update_box_i32(buf: &mut Vec<u8>, pos: usize, v: i32)
    requires
        box_i32_wf_at(old(buf)@, pos as int),
    ensures
        final(buf)@.len() == old(buf)@.len(),
        box_i32_wf_at(final(buf)@, pos as int),
        spec_box_i32_at(final(buf)@, pos as int) == v,
        forall|i: int|
            0 <= i < old(buf)@.len() && !(pos + spec_i32_from_le_bytes(
                old(buf)@.subrange(pos as int, pos + 4),
            ) <= i < pos + spec_i32_from_le_bytes(old(buf)@.subrange(pos as int, pos + 4)) + 4)
                ==> final(buf)@[i] == old(buf)@[i],
{
    let blen = buf.len();
    let d = load_i32_at(buf, pos);
    let q = match apply_offset(pos, d) {
        Ok(q) => q,
        Err(_) => {
            proof {
                assert(false);
            }
            0
        },
    };
    proof {
        lemma_i32_le_bytes_roundtrip(v);
    }
    store_i32_at(buf, q, v);
    proof {
        assert(buf@.subrange(pos as int, pos + 4) =~= old(buf)@.subrange(pos as int, pos + 4));
    }
}

/// Validator soundness for boxes: on a well-formed cell the pointer chase
/// lands aligned and entirely before the cell, so dereferencing never
/// reads out of bounds.
pub proof fn lemma_box_access_sound(b: Seq<u8>, pos: int)
    requires
        box_i32_wf_at(b, pos),
    ensures
        0 <= pos && pos + BOX_SIZE <= b.len(),
        pos % (BOX_ALIGN as int) == 0,
        ({
            let q = pos + spec_i32_from_le_bytes(b.subrange(pos, pos + 4));
            0 <= q && q + 4 <= b.len() && q % 4 == 0
        }),
{
}

/// Round-trip identity for boxes: serializing a value and chasing the
/// archived pointer gives the value back.
pub proof fn lemma_box_i32_roundtrip(v: i32)
    ensures
        box_i32_wf_at(spec_box_i32_ser(v, Seq::empty()).0, spec_box_i32_ser(v, Seq::empty()).1),
        spec_box_i32_at(spec_box_i32_ser(v, Seq::empty()).0, spec_box_i32_ser(v, Seq::empty()).1)
            == v,
{
    lemma_align_up(0, BOX_ALIGN as int);
    lemma_i32_le_bytes_roundtrip(v);
    let dd = -4;
    lemma_i32_le_bytes_roundtrip(dd as i32);
    let (b, p) = spec_box_i32_ser(v, Seq::empty());
    assert(b.subrange(4, 8) =~= spec_i32_to_le_bytes(dd as i32));
    assert(b.subrange(0, 4) =~= spec_i32_to_le_bytes(v));
}

} // verus!
