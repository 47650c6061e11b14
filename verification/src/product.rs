//! Example product types and their archived layouts: a unit struct with an
//! empty footprint, and a three-field product whose fields are laid out in
//! declaration order at aligned offsets.

use crate::codec::{spec_i32_from_le_bytes, spec_i32_to_le_bytes, store_u8_at};
use crate::error::Error;
use crate::option::{
    lemma_opt_i32_roundtrip, resolve_opt_i32, spec_opt_i32_at, spec_opt_i32_bytes,
};
use crate::primitive::{access_i32, update_i32};
use crate::writer::Writer;
use vstd::arithmetic::div_mod::lemma_mod_mod;
use vstd::prelude::*;

verus! {

/// A unit struct: it archives to nothing at all.
#[derive(Clone, Copy, Debug, PartialEq, Eq, Structural)]
pub struct Unit;

/// The archived size of [`Unit`]: zero bytes.
pub const UNIT_SIZE: usize = 0;

/// A well-formed archived [`Unit`] at `pos`: any position up to the end of
/// the buffer, since the value occupies no bytes.
pub open spec fn unit_wf_at(b: Seq<u8>, pos: int) -> bool {
    0 <= pos <= b.len()
}

/// Serializes a [`Unit`]: the buffer is empty and the root position is 0.
pub fn to_bytes_unit(_v: &Unit) -> (r: Result<(Vec<u8>, usize), Error>)
    ensures
        r matches Ok(p) ==> {
            &&& p.0@.len() == 0
            &&& p.1 == 0
            &&& unit_wf_at(p.0@, 0)
        },
        r is Ok,
{
    let w = Writer::new();
    Ok((w.bytes, 0))
}

/// Checks that `pos` can hold an archived [`Unit`]: only the bound matters.
pub fn validate_unit(buf: &Vec<u8>, pos: usize) -> (r: Result<(), Error>)
    ensures
        r is Ok <==> unit_wf_at(buf@, pos as int),
        pos > buf@.len() ==> r == Result::<(), Error>::Err(Error::OutOfBounds),
{
    if pos > buf.len() {
        return Err(Error::OutOfBounds);
    }
    Ok(())
}

/// Accesses the archived [`Unit`] at `pos`: a zero-sized read always
/// succeeds on a well-formed position.
pub fn access_unit(buf: &Vec<u8>, pos: usize) -> (r: Unit)
    requires
        unit_wf_at(buf@, pos as int),
    ensures
        r == Unit,
{
    Unit
}

/// A product with a zero-sized field, an integer field, and an optional
/// field.
#[derive(Clone, Copy, Debug, PartialEq, Eq)]
pub struct Test {
    pub a: (),
    pub b: i32,
    pub c: Option<i32>,
}

/// The archived size of [`Test`]: `a` occupies nothing, `b` sits at offset
/// 0, and `c` — a sum cell — at the next eight-aligned offset, 8.
pub const TEST_SIZE: usize = 16;

/// The archived alignment of [`Test`]: that of its most-aligned field.
pub const TEST_ALIGN: usize = 8;

/// The offset of field `b`.
pub const TEST_B_OFFSET: usize = 0;

/// The offset of field `c`.
pub const TEST_C_OFFSET: usize = 8;

/// The archived bytes of a [`Test`] value: each field's archived bytes in
/// declaration order, with zero padding between them.
pub open spec fn spec_product_bytes(v: Test) -> Seq<u8> {
    spec_i32_to_le_bytes(v.b) + seq![0u8, 0u8, 0u8, 0u8] + spec_opt_i32_bytes(v.c)
}

/// A well-formed archived [`Test`] at `pos`: in bounds, aligned, and with a
/// well-formed optional in its `c` slot.
pub open spec fn product_wf_at(b: Seq<u8>, pos: int) -> bool {
    &&& 0 <= pos
    &&& pos % (TEST_ALIGN as int) == 0
    &&& pos + TEST_SIZE <= b.len()
    &&& b[pos + TEST_C_OFFSET] <= 1
}

/// The [`Test`] value archived at `pos`.
pub open spec fn spec_product_at(b: Seq<u8>, pos: int) -> Test
    recommends
        product_wf_at(b, pos),
{
    Test {
        a: (),
        b: spec_i32_from_le_bytes(b.subrange(pos, pos + 4)),
        c: spec_opt_i32_at(b, pos + TEST_C_OFFSET),
    }
}

/// Field positions of an archived [`Test`] are aligned for their fields:
/// the alignment law, instantiated for this product.
pub proof fn lemma_product_field_alignment(b: Seq<u8>, pos: int)
    requires
        product_wf_at(b, pos),
    ensures
        (pos + TEST_B_OFFSET) % 4 == 0,
        (pos + TEST_C_OFFSET) % 8 == 0,
{
    lemma_mod_mod(pos, 4, 2);
    vstd::arithmetic::div_mod::lemma_add_mod_noop(pos, 8, 8);
    vstd::arithmetic::div_mod::lemma_mod_self_0(8);
}

/// Writes the archived form of `v` over the sixteen bytes at `pos`: each
/// field through its own projected slot, padding zeroed.
pub fn resolve_product(v: &Test, pos: usize, buf: &mut Vec<u8>)
    requires
        pos + TEST_SIZE <= old(buf)@.len(),
        pos as int % (TEST_ALIGN as int) == 0,
    ensures
        final(buf)@.len() == old(buf)@.len(),
        final(buf)@.subrange(pos as int, pos + TEST_SIZE) == spec_product_bytes(*v),
        forall|i: int|
            0 <= i < old(buf)@.len() && !(pos <= i < pos + TEST_SIZE) ==> final(buf)@[i] == old(
                buf,
            )@[i],
{
    let blen = buf.len();
    crate::codec::store_i32_at(buf, pos, v.b);
    store_u8_at(buf, pos + 4, 0);
    store_u8_at(buf, pos + 5, 0);
    store_u8_at(buf, pos + 6, 0);
    store_u8_at(buf, pos + 7, 0);
    resolve_opt_i32(&v.c, pos + 8, buf);
    proof {
        assert(buf@.subrange(pos as int, pos + TEST_SIZE) =~= spec_product_bytes(*v));
    }
}

/// Serializes `v` into a fresh buffer: exactly its sixteen archived bytes,
/// root position 0. Never fails; equal values give byte-identical buffers.
pub fn to_bytes_product(v: &Test) -> (r: Result<(Vec<u8>, usize), Error>)
    ensures
        r matches Ok(p) ==> {
            &&& p.0@ == spec_product_bytes(*v)
            &&& p.1 == 0
            &&& product_wf_at(p.0@, 0)
        },
        r is Ok,
{
    let mut w = Writer::new();
    let place = match w.reserve(TEST_SIZE, TEST_ALIGN) {
        Ok(p) => p,
        Err(e) => {
            return Err(e);
        },
    };
    resolve_product(v, place.pos, &mut w.bytes);
    proof {
        assert(w.bytes@ =~= spec_product_bytes(*v));
        lemma_product_roundtrip(*v);
    }
    Ok((w.bytes, 0))
}

/// Checks that `pos` holds a well-formed archived [`Test`]: in bounds
/// first, then aligned, then each field in declaration order — here only
/// the optional has anything to check.
pub fn validate_product(buf: &Vec<u8>, pos: usize) -> (r: Result<(), Error>)
    ensures
        r is Ok <==> product_wf_at(buf@, pos as int),
        pos + TEST_SIZE > buf@.len() ==> r == Result::<(), Error>::Err(Error::OutOfBounds),
        pos + TEST_SIZE <= buf@.len() && pos as int % (TEST_ALIGN as int) != 0 ==> r
            == Result::<(), Error>::Err(Error::Unaligned),
        pos + TEST_SIZE <= buf@.len() && pos as int % (TEST_ALIGN as int) == 0 && buf@[pos
            + TEST_C_OFFSET] > 1 ==> r == Result::<(), Error>::Err(Error::InvalidDiscriminant),
{
    let len = buf.len();
    if len < TEST_SIZE || pos > len - TEST_SIZE {
        return Err(Error::OutOfBounds);
    }
    if pos % TEST_ALIGN != 0 {
        return Err(Error::Unaligned);
    }
    let tag = crate::codec::load_u8_at(buf, pos + TEST_C_OFFSET);
    if tag > 1 {
        return Err(Error::InvalidDiscriminant);
    }
    Ok(())
}

/// Reads the archived [`Test`] at `pos`, field by field.
pub fn access_product(buf: &Vec<u8>, pos: usize) -> (r: Test)
    requires
        product_wf_at(buf@, pos as int),
    ensures
        r == spec_product_at(buf@, pos as int),
{
    let blen = buf.len();
    proof {
        lemma_mod_mod(pos as int, 4, 2);
    }
    let b = access_i32(buf, pos);
    let c = crate::option::access_opt_i32(buf, pos + TEST_C_OFFSET);
    proof {
        vstd::arithmetic::div_mod::lemma_add_mod_noop(pos as int, 8, 8);
        vstd::arithmetic::div_mod::lemma_mod_self_0(8);
    }
    Test { a: (), b, c }
}

/// Validates, then accesses: the safe entry point for untrusted bytes.
pub fn access_product_checked(buf: &Vec<u8>, pos: usize) -> (r: Result<Test, Error>)
    ensures
        r is Ok <==> product_wf_at(buf@, pos as int),
        r matches Ok(v) ==> v == spec_product_at(buf@, pos as int),
{
    match validate_product(buf, pos) {
        Ok(_) => Ok(access_product(buf, pos)),
        Err(e) => Err(e),
    }
}

/// Overwrites field `b` of the archived [`Test`] at `pos` in place: a
/// primitive store through the field's projection, changing no structure.
pub fn update_product_b(buf: &mut Vec<u8>, pos: usize, v: i32)
    requires
        product_wf_at(old(buf)@, pos as int),
    ensures
        final(buf)@.len() == old(buf)@.len(),
        product_wf_at(final(buf)@, pos as int),
        spec_product_at(final(buf)@, pos as int) == (Test {
            b: v,
            ..spec_product_at(old(buf)@, pos as int)
        }),
        forall|i: int|
            0 <= i < old(buf)@.len() && !(pos <= i < pos + 4) ==> final(buf)@[i] == old(buf)@[i],
{
    let blen = buf.len();
    proof {
        lemma_mod_mod(pos as int, 4, 2);
    }
    update_i32(buf, pos, v);
    proof {
        assert(buf@.subrange(pos + 12, pos + 16) =~= old(buf)@.subrange(pos + 12, pos + 16));
        assert(buf@.subrange(pos as int, pos + 4) =~= buf@.subrange(pos as int, pos + 4));
    }
}

/// Round-trip identity and zero-copy equivalence for products: the archived
/// bytes are well-formed at the root and read back — field for field — as
/// the value itself.
pub proof fn lemma_product_roundtrip(v: Test)
    ensures
        product_wf_at(spec_product_bytes(v), 0),
        spec_product_at(spec_product_bytes(v), 0) == v,
{
    crate::codec::lemma_i32_le_bytes_roundtrip(v.b);
    crate::codec::lemma_i32_le_bytes_roundtrip(crate::option::spec_opt_i32_payload(v.c));
    lemma_opt_i32_roundtrip(v.c);
    let b = spec_product_bytes(v);
    let ob = spec_opt_i32_bytes(v.c);
    assert(ob.len() == 8);
    assert(b.subrange(0, 4) =~= spec_i32_to_le_bytes(v.b));
    assert(b.subrange(8, 16) =~= ob);
    assert(b[8] == ob[0]);
    assert(b.subrange(12, 16) =~= ob.subrange(4, 8));
}

} // verus!
