//! An example sum type and its archived layout.
//!
//! A sum type archives as a tagged cell: a single-byte discriminant at
//! offset 0, assigned in declaration order starting at zero, then padding up
//! to the payload's alignment, then the payload of the live variant. The
//! cell has one fixed size — the largest variant's — so sums can stand in
//! arrays and in struct fields. In this configuration sum cells are aligned
//! to eight bytes.

use crate::codec::{
    lemma_i32_le_bytes_roundtrip, load_i32_at, load_u8_at, spec_i32_from_le_bytes,
    spec_i32_to_le_bytes, store_i32_at, store_u8_at,
};
use crate::error::Error;
use crate::writer::Writer;
use vstd::prelude::*;

verus! {

/// A sum with an empty variant, a tuple variant, and a struct variant.
#[derive(Clone, Copy, Debug, PartialEq, Eq, Structural)]
pub enum Test {
    A,
    B(i32),
    C { inner: i32 },
}

/// The archived size of [`Test`]: tag byte, three bytes of padding, four
/// bytes of payload.
pub const TEST_SIZE: usize = 8;

/// The archived alignment of sum cells in this configuration.
pub const TEST_ALIGN: usize = 8;

/// The discriminant assigned to each variant, in declaration order.
pub open spec fn spec_test_tag(v: Test) -> u8 {
    match v {
        Test::A => 0,
        Test::B(_) => 1,
        Test::C { .. } => 2,
    }
}

/// The payload written for each variant; the empty variant writes zero.
pub open spec fn spec_test_payload(v: Test) -> i32 {
    match v {
        Test::A => 0,
        Test::B(x) => x,
        Test::C { inner } => inner,
    }
}

/// The archived bytes of a [`Test`] value: tag, zero padding, payload.
pub open spec fn spec_test_bytes(v: Test) -> Seq<u8> {
    seq![spec_test_tag(v), 0u8, 0u8, 0u8] + spec_i32_to_le_bytes(spec_test_payload(v))
}

/// A well-formed archived [`Test`] at `pos`: in bounds, aligned, and with a
/// tag byte in the declared set. The padding and the payload of the empty
/// variant are not constrained.
pub open spec fn test_wf_at(b: Seq<u8>, pos: int) -> bool {
    &&& 0 <= pos
    &&& pos % (TEST_ALIGN as int) == 0
    &&& pos + TEST_SIZE <= b.len()
    &&& b[pos] <= 2
}

/// The [`Test`] value archived at `pos`.
pub open spec fn spec_test_at(b: Seq<u8>, pos: int) -> Test
    recommends
        test_wf_at(b, pos),
{
    if b[pos] == 0 {
        Test::A
    } else if b[pos] == 1 {
        Test::B(spec_i32_from_le_bytes(b.subrange(pos + 4, pos + 8)))
    } else {
        Test::C { inner: spec_i32_from_le_bytes(b.subrange(pos + 4, pos + 8)) }
    }
}

/// Writes the archived form of `v` over the eight bytes at `pos`: the tag,
/// zeroed padding, and the payload. Works both for filling a reserved place
/// and for mutating an archived sum in place — overwriting the live variant
/// changes no structure.
pub fn resolve_test(v: &Test, pos: usize, buf: &mut Vec<u8>)
    requires
        pos + TEST_SIZE <= old(buf)@.len(),
    ensures
        final(buf)@.len() == old(buf)@.len(),
        final(buf)@.subrange(pos as int, pos + TEST_SIZE) == spec_test_bytes(*v),
        forall|i: int|
            0 <= i < old(buf)@.len() && !(pos <= i < pos + TEST_SIZE) ==> final(buf)@[i] == old(
                buf,
            )@[i],
{
    let blen = buf.len();
    let (tag, payload): (u8, i32) = match v {
        Test::A => (0u8, 0i32),
        Test::B(x) => (1u8, *x),
        Test::C { inner } => (2u8, *inner),
    };
    store_u8_at(buf, pos, tag);
    store_u8_at(buf, pos + 1, 0);
    store_u8_at(buf, pos + 2, 0);
    store_u8_at(buf, pos + 3, 0);
    store_i32_at(buf, pos + 4, payload);
    proof {
        assert(buf@.subrange(pos as int, pos + TEST_SIZE) =~= spec_test_bytes(*v));
    }
}

/// Serializes `v` into a fresh buffer: exactly its eight archived bytes,
/// root position 0. Never fails; equal values give byte-identical buffers.
pub fn to_bytes_test(v: &Test) -> (r: Result<(Vec<u8>, usize), Error>)
    ensures
        r matches Ok(p) ==> {
            &&& p.0@ == spec_test_bytes(*v)
            &&& p.1 == 0
            &&& test_wf_at(p.0@, 0)
        },
        r is Ok,
{
    let mut w = Writer::new();
    let place = match w.reserve(TEST_SIZE, TEST_ALIGN) {
        Ok(p) => p,
        Err(e) => {
            return Err(e);
        },
    };
    resolve_test(v, place.pos, &mut w.bytes);
    proof {
        assert(w.bytes@ =~= spec_test_bytes(*v));
    }
    Ok((w.bytes, 0))
}

/// Checks that `pos` holds a well-formed archived [`Test`]: in bounds first,
/// then aligned, then a tag in the declared set.
pub fn validate_test(buf: &Vec<u8>, pos: usize) -> (r: Result<(), Error>)
    ensures
        r is Ok <==> test_wf_at(buf@, pos as int),
        pos + TEST_SIZE > buf@.len() ==> r == Result::<(), Error>::Err(Error::OutOfBounds),
        pos + TEST_SIZE <= buf@.len() && pos as int % (TEST_ALIGN as int) != 0 ==> r
            == Result::<(), Error>::Err(Error::Unaligned),
        pos + TEST_SIZE <= buf@.len() && pos as int % (TEST_ALIGN as int) == 0 && buf@[pos as int]
            > 2 ==> r == Result::<(), Error>::Err(Error::InvalidDiscriminant),
{
    let len = buf.len();
    if len < TEST_SIZE || pos > len - TEST_SIZE {
        return Err(Error::OutOfBounds);
    }
    if pos % TEST_ALIGN != 0 {
        return Err(Error::Unaligned);
    }
    let tag = load_u8_at(buf, pos);
    if tag > 2 {
        return Err(Error::InvalidDiscriminant);
    }
    Ok(())
}

/// Reads the archived [`Test`] at `pos`: the tag byte picks the variant, and
/// the payload is one load at a known offset.
pub fn access_test(buf: &Vec<u8>, pos: usize) -> (r: Test)
    requires
        test_wf_at(buf@, pos as int),
    ensures
        r == spec_test_at(buf@, pos as int),
{
    let blen = buf.len();
    let tag = load_u8_at(buf, pos);
    if tag == 0 {
        Test::A
    } else if tag == 1 {
        Test::B(load_i32_at(buf, pos + 4))
    } else {
        Test::C { inner: load_i32_at(buf, pos + 4) }
    }
}

/// Validates, then accesses: the safe entry point for untrusted bytes.
pub fn access_test_checked(buf: &Vec<u8>, pos: usize) -> (r: Result<Test, Error>)
    ensures
        r is Ok <==> test_wf_at(buf@, pos as int),
        r matches Ok(v) ==> v == spec_test_at(buf@, pos as int),
{
    match validate_test(buf, pos) {
        Ok(_) => Ok(access_test(buf, pos)),
        Err(e) => Err(e),
    }
}

/// Round-trip identity for sums: the archived bytes of `v` are well-formed
/// at the root and decode to `v` itself, whichever variant is live.
pub proof fn lemma_test_roundtrip(v: Test)
    ensures
        test_wf_at(spec_test_bytes(v), 0),
        spec_test_at(spec_test_bytes(v), 0) == v,
{
    lemma_i32_le_bytes_roundtrip(spec_test_payload(v));
    let b = spec_test_bytes(v);
    assert(b.subrange(4, 8) =~= spec_i32_to_le_bytes(spec_test_payload(v)));
}

} // verus!
