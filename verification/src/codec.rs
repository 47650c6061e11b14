//! The primitive codec: little-endian stores and loads of fixed-width values
//! at known positions of a byte buffer.
//!
//! Every store changes exactly the bytes of its slot and nothing else; every
//! load is specified against the little-endian decoding of the slot's bytes.

use vstd::bytes::*;
use vstd::prelude::*;
use vstd::slice::slice_subrange;

verus! {

/// The little-endian bytes of a signed 32-bit value (its two's complement).
pub open spec fn spec_i32_to_le_bytes(v: i32) -> Seq<u8> {
    spec_u32_to_le_bytes(v as u32)
}

/// The signed 32-bit value encoded by four little-endian bytes.
pub open spec fn spec_i32_from_le_bytes(s: Seq<u8>) -> i32 {
    spec_u32_from_le_bytes(s) as i32
}

/// Signed 32-bit values survive the round trip through their byte encoding.
pub proof fn lemma_i32_le_bytes_roundtrip(v: i32)
    ensures
        spec_i32_to_le_bytes(v).len() == 4,
        spec_i32_from_le_bytes(spec_i32_to_le_bytes(v)) == v,
{
    lemma_auto_spec_u32_to_from_le_bytes();
    assert(spec_u32_to_le_bytes(v as u32).len() == 4);
    assert(spec_u32_from_le_bytes(spec_u32_to_le_bytes(v as u32)) == v as u32);
    assert(v as u32 as i32 == v) by (bit_vector);
}

/// A run of zero bytes.
pub open spec fn spec_zeros(n: int) -> Seq<u8> {
    Seq::new(n as nat, |i: int| 0u8)
}

/// Writes `src` over `buf[pos .. pos + src.len()]`; all other bytes keep
/// their value.
pub fn store_bytes(buf: &mut Vec<u8>, pos: usize, src: &Vec<u8>)
    requires
        pos + src@.len() <= old(buf)@.len(),
    ensures
        final(buf)@.len() == old(buf)@.len(),
        final(buf)@.subrange(pos as int, pos + src@.len()) == src@,
        forall|i: int|
            0 <= i < old(buf)@.len() && !(pos <= i < pos + src@.len())
                ==> final(buf)@[i] == old(buf)@[i],
{
    let ghost orig = buf@;
    let blen = buf.len();
    let mut k: usize = 0;
    while k < src.len()
        invariant
            pos + src@.len() <= buf@.len(),
            buf@.len() == orig.len(),
            blen == orig.len(),
            k <= src@.len(),
            forall|i: int| 0 <= i < k ==> buf@[pos + i] == src@[i],
            forall|i: int|
                0 <= i < orig.len() && !(pos <= i < pos + src@.len()) ==> buf@[i] == orig[i],
        decreases src@.len() - k,
    {
        buf[pos + k] = src[k];
        k += 1;
    }
    proof {
        assert(buf@.subrange(pos as int, pos + src@.len()) =~= src@);
    }
}

/// Reads `n` bytes starting at `pos`.
pub fn load_bytes(buf: &Vec<u8>, pos: usize, n: usize) -> (r: Vec<u8>)
    requires
        pos + n <= buf@.len(),
    ensures
        r@ == buf@.subrange(pos as int, pos + n),
{
    let blen = buf.len();
    let s = slice_subrange(buf.as_slice(), pos, pos + n);
    vstd::slice::slice_to_vec(s)
}

/// Stores the single byte `v` at `pos`.
pub fn store_u8_at(buf: &mut Vec<u8>, pos: usize, v: u8)
    requires
        pos < old(buf)@.len(),
    ensures
        final(buf)@ == old(buf)@.update(pos as int, v),
{
    buf[pos] = v;
}

/// Loads the single byte at `pos`.
pub fn load_u8_at(buf: &Vec<u8>, pos: usize) -> (r: u8)
    requires
        pos < buf@.len(),
    ensures
        r == buf@[pos as int],
{
    buf[pos]
}

/// Stores `v` as two little-endian bytes at `pos`.
pub fn store_u16_at(buf: &mut Vec<u8>, pos: usize, v: u16)
    requires
        pos + 2 <= old(buf)@.len(),
    ensures
        final(buf)@.len() == old(buf)@.len(),
        final(buf)@.subrange(pos as int, pos + 2) == spec_u16_to_le_bytes(v),
        forall|i: int|
            0 <= i < old(buf)@.len() && !(pos <= i < pos + 2) ==> final(buf)@[i] == old(buf)@[i],
{
    proof {
        lemma_auto_spec_u16_to_from_le_bytes();
    }
    let bytes = u16_to_le_bytes(v);
    store_bytes(buf, pos, &bytes);
}

/// Loads the two little-endian bytes at `pos` as a `u16`.
pub fn load_u16_at(buf: &Vec<u8>, pos: usize) -> (r: u16)
    requires
        pos + 2 <= buf@.len(),
    ensures
        r == spec_u16_from_le_bytes(buf@.subrange(pos as int, pos + 2)),
{
    let blen = buf.len();
    let s = slice_subrange(buf.as_slice(), pos, pos + 2);
    u16_from_le_bytes(s)
}

/// Stores `v` as four little-endian bytes at `pos`.
pub fn store_u32_at(buf: &mut Vec<u8>, pos: usize, v: u32)
    requires
        pos + 4 <= old(buf)@.len(),
    ensures
        final(buf)@.len() == old(buf)@.len(),
        final(buf)@.subrange(pos as int, pos + 4) == spec_u32_to_le_bytes(v),
        forall|i: int|
            0 <= i < old(buf)@.len() && !(pos <= i < pos + 4) ==> final(buf)@[i] == old(buf)@[i],
{
    proof {
        lemma_auto_spec_u32_to_from_le_bytes();
    }
    let bytes = u32_to_le_bytes(v);
    store_bytes(buf, pos, &bytes);
}

/// Loads the four little-endian bytes at `pos` as a `u32`.
pub fn load_u32_at(buf: &Vec<u8>, pos: usize) -> (r: u32)
    requires
        pos + 4 <= buf@.len(),
    ensures
        r == spec_u32_from_le_bytes(buf@.subrange(pos as int, pos + 4)),
{
    let blen = buf.len();
    let s = slice_subrange(buf.as_slice(), pos, pos + 4);
    u32_from_le_bytes(s)
}

/// Stores `v` as eight little-endian bytes at `pos`.
pub fn store_u64_at(buf: &mut Vec<u8>, pos: usize, v: u64)
    requires
        pos + 8 <= old(buf)@.len(),
    ensures
        final(buf)@.len() == old(buf)@.len(),
        final(buf)@.subrange(pos as int, pos + 8) == spec_u64_to_le_bytes(v),
        forall|i: int|
            0 <= i < old(buf)@.len() && !(pos <= i < pos + 8) ==> final(buf)@[i] == old(buf)@[i],
{
    proof {
        lemma_auto_spec_u64_to_from_le_bytes();
    }
    let bytes = u64_to_le_bytes(v);
    store_bytes(buf, pos, &bytes);
}

/// Loads the eight little-endian bytes at `pos` as a `u64`.
pub fn load_u64_at(buf: &Vec<u8>, pos: usize) -> (r: u64)
    requires
        pos + 8 <= buf@.len(),
    ensures
        r == spec_u64_from_le_bytes(buf@.subrange(pos as int, pos + 8)),
{
    let blen = buf.len();
    let s = slice_subrange(buf.as_slice(), pos, pos + 8);
    u64_from_le_bytes(s)
}

/// Stores `v` as four little-endian bytes (two's complement) at `pos`.
pub fn store_i32_at(buf: &mut Vec<u8>, pos: usize, v: i32)
    requires
        pos + 4 <= old(buf)@.len(),
    ensures
        final(buf)@.len() == old(buf)@.len(),
        final(buf)@.subrange(pos as int, pos + 4) == spec_i32_to_le_bytes(v),
        forall|i: int|
            0 <= i < old(buf)@.len() && !(pos <= i < pos + 4) ==> final(buf)@[i] == old(buf)@[i],
{
    store_u32_at(buf, pos, v as u32);
}

/// Loads the four little-endian bytes at `pos` as an `i32`.
pub fn load_i32_at(buf: &Vec<u8>, pos: usize) -> (r: i32)
    requires
        pos + 4 <= buf@.len(),
    ensures
        r == spec_i32_from_le_bytes(buf@.subrange(pos as int, pos + 4)),
{
    let v = load_u32_at(buf, pos);
    v as i32
}

} // verus!
