//! Owned strings and their archived form: a variable-length sequence of
//! UTF-8 bytes behind a relative pointer, with a length.
//!
//! The descriptor is eight bytes — a signed offset to the payload, then the
//! payload's length — and the payload itself is raw bytes, written before
//! the descriptor with no alignment of its own. The validator checks the
//! payload's bounds and its UTF-8 well-formedness.

use crate::codec::{
    load_bytes, load_i32_at, load_u32_at, spec_i32_from_le_bytes, spec_i32_to_le_bytes, spec_zeros,
    store_i32_at, store_u32_at,
};
use crate::error::Error;
use crate::layout::{lemma_align_up, spec_align_up};
use crate::relptr::{apply_offset, offset_fits, rel_offset};
use crate::utf8::{
    ascii_uppercase_range, check_utf8_range, lemma_upper_preserves_utf8, spec_is_utf8,
    spec_upper_seq,
};
use crate::writer::Writer;
use vstd::bytes::{
    lemma_auto_spec_u32_to_from_le_bytes, spec_u32_from_le_bytes, spec_u32_to_le_bytes,
};
use vstd::prelude::*;

verus! {

/// An owned string: a byte vector that is well-formed UTF-8.
#[derive(Debug, PartialEq, Eq, Clone)]
pub struct Utf8String {
    pub bytes: Vec<u8>,
}

impl Utf8String {
    /// The bytes are well-formed UTF-8.
    pub open spec fn wf(&self) -> bool {
        spec_is_utf8(self.bytes@)
    }

    /// Takes ownership of `bytes` if they are well-formed UTF-8, and
    /// refuses them — handing nothing back — exactly otherwise.
    pub fn from_bytes(bytes: Vec<u8>) -> (r: Option<Utf8String>)
        ensures
            r is Some <==> spec_is_utf8(bytes@),
            r matches Some(s) ==> s.bytes@ == bytes@ && s.wf(),
    {
        let n = bytes.len();
        let ok = check_utf8_range(&bytes, 0, n);
        proof {
            assert(bytes@.subrange(0, n as int) =~= bytes@);
        }
        if ok {
            Some(Utf8String { bytes })
        } else {
            None
        }
    }
}

/// The size of an archived string's descriptor: offset and length.
pub const STR_SIZE: usize = 8;

/// The alignment of an archived string's descriptor.
pub const STR_ALIGN: usize = 4;

/// A well-formed archived string at `pos`: descriptor in bounds and
/// aligned, payload entirely before the descriptor, and well-formed UTF-8.
pub open spec fn str_wf_at(b: Seq<u8>, pos: int) -> bool {
    &&& 0 <= pos
    &&& pos % (STR_ALIGN as int) == 0
    &&& pos + STR_SIZE <= b.len()
    &&& {
        let q = pos + spec_i32_from_le_bytes(b.subrange(pos, pos + 4));
        let n = spec_u32_from_le_bytes(b.subrange(pos + 4, pos + 8));
        &&& 0 <= q
        &&& q + n <= pos
        &&& spec_is_utf8(b.subrange(q, q + n))
    }
}

/// The payload bytes of the string archived at `pos`.
pub open spec fn spec_str_at(b: Seq<u8>, pos: int) -> Seq<u8>
    recommends
        str_wf_at(b, pos),
{
    let q = pos + spec_i32_from_le_bytes(b.subrange(pos, pos + 4));
    let n = spec_u32_from_le_bytes(b.subrange(pos + 4, pos + 8));
    b.subrange(q, q + n)
}

/// What serializing the payload `sb` appends to a buffer `b`, and the
/// position of the descriptor: the payload first, unaligned; then padding;
/// then the descriptor.
pub open spec fn spec_str_ser(sb: Seq<u8>, b: Seq<u8>) -> (Seq<u8>, int) {
    let q = b.len() as int;
    let b1 = b + sb;
    let p = spec_align_up(b1.len() as int, STR_ALIGN as int);
    (
        b1 + spec_zeros(p - b1.len()) + spec_i32_to_le_bytes((q - p) as i32)
            + spec_u32_to_le_bytes(sb.len() as u32),
        p,
    )
}

/// Whether serializing the payload `sb` after `b` succeeds against a writer
/// bound: the length must fit the configured 32-bit width, the offset must
/// fit, and the descriptor must end under the bound.
pub open spec fn spec_str_ser_ok(sb: Seq<u8>, b: Seq<u8>, limit: int) -> bool {
    let q = b.len() as int;
    let p = spec_align_up((b.len() + sb.len()) as int, STR_ALIGN as int);
    &&& sb.len() <= u32::MAX
    &&& offset_fits(p, q)
    &&& p + STR_SIZE <= limit
}

/// The serialization protocol for strings is correct: the appended bytes
/// leave the old ones alone, the descriptor lands aligned and last, and it
/// decodes to the payload it came from.
pub proof fn lemma_str_ser_correct(sb: Seq<u8>, b: Seq<u8>, limit: int)
    requires
        spec_is_utf8(sb),
        spec_str_ser_ok(sb, b, limit),
    ensures
        ({
            let (b2, p) = spec_str_ser(sb, b);
            &&& b.len() <= p
            &&& p % (STR_ALIGN as int) == 0
            &&& p + STR_SIZE == b2.len()
            &&& b2.len() <= limit
            &&& b2.subrange(0, b.len() as int) == b
            &&& str_wf_at(b2, p)
            &&& spec_str_at(b2, p) == sb
        }),
{
    lemma_auto_spec_u32_to_from_le_bytes();
    let q = b.len() as int;
    let b1 = b + sb;
    let p = spec_align_up(b1.len() as int, STR_ALIGN as int);
    lemma_align_up(b1.len() as int, STR_ALIGN as int);
    let (b2, p2) = spec_str_ser(sb, b);
    let d = q - p;
    assert(d as i32 == d);
    crate::codec::lemma_i32_le_bytes_roundtrip(d as i32);
    assert(sb.len() as u32 as int == sb.len() as int);
    assert(b2.subrange(0, b.len() as int) =~= b);
    assert(b2.subrange(p, p + 4) =~= spec_i32_to_le_bytes(d as i32));
    assert(b2.subrange(p + 4, p + 8) =~= spec_u32_to_le_bytes(sb.len() as u32));
    assert(b2.subrange(q, q + sb.len() as int) =~= sb);
}

/// Serializes the payload of `s` and then its descriptor into the writer,
/// returning the descriptor's position. Succeeds exactly when the length
/// and offset fit the configured width and the bytes fit the bound.
pub fn serialize_str(s: &Utf8String, w: &mut Writer) -> (r: Result<usize, Error>)
    requires
        old(w).wf(),
        s.wf(),
    ensures
        final(w).wf(),
        final(w).limit == old(w).limit,
        r is Ok <==> spec_str_ser_ok(s.bytes@, old(w).bytes@, old(w).limit as int),
        r matches Ok(p) ==> final(w).bytes@ == spec_str_ser(s.bytes@, old(w).bytes@).0 && p
            == spec_str_ser(s.bytes@, old(w).bytes@).1,
        r matches Err(e) ==> (e == Error::OutOfSpace || e == Error::OffsetOverflow),
{
    proof {
        lemma_align_up((old(w).bytes@.len() + s.bytes@.len()) as int, STR_ALIGN as int);
    }
    let n = s.bytes.len();
    if n > (u32::MAX as usize) {
        proof {
            lemma_align_up(old(w).bytes@.len() as int, STR_ALIGN as int);
        }
        return Err(Error::OffsetOverflow);
    }
    let q = w.pos();
    match w.write_slice(&s.bytes) {
        Ok(_) => (),
        Err(e) => {
            proof {
                let p = spec_align_up(
                    (old(w).bytes@.len() + s.bytes@.len()) as int,
                    STR_ALIGN as int,
                );
                assert(old(w).bytes@.len() + s.bytes@.len() <= p);
            }
            return Err(e);
        },
    }
    let place = match w.reserve(STR_SIZE, STR_ALIGN) {
        Ok(p) => p,
        Err(e) => {
            return Err(e);
        },
    };
    let d = match rel_offset(place.pos, q) {
        Ok(d) => d,
        Err(e) => {
            return Err(e);
        },
    };
    store_i32_at(&mut w.bytes, place.pos, d);
    store_u32_at(&mut w.bytes, place.pos + 4, n as u32);
    proof {
        let dd = q - place.pos as int;
        assert(d == dd as i32);
        assert(w.bytes@ =~= spec_str_ser(s.bytes@, old(w).bytes@).0);
    }
    Ok(place.pos)
}

/// Serializes `s` into a fresh buffer and returns it with the root
/// position: the descriptor, written last at `len - 8`.
pub fn to_bytes_str(s: &Utf8String) -> (r: Result<(Vec<u8>, usize), Error>)
    requires
        s.wf(),
    ensures
        r is Ok <==> spec_str_ser_ok(s.bytes@, Seq::empty(), usize::MAX as int),
        r matches Ok(p) ==> {
            &&& p.0@ == spec_str_ser(s.bytes@, Seq::empty()).0
            &&& p.1 == spec_str_ser(s.bytes@, Seq::empty()).1
            &&& p.1 + STR_SIZE == p.0@.len()
            &&& str_wf_at(p.0@, p.1 as int)
            &&& spec_str_at(p.0@, p.1 as int) == s.bytes@
        },
{
    let mut w = Writer::new();
    proof {
        assert(w.bytes@ =~= Seq::<u8>::empty());
    }
    let root = match serialize_str(s, &mut w) {
        Ok(q) => q,
        Err(e) => {
            return Err(e);
        },
    };
    proof {
        lemma_str_ser_correct(s.bytes@, Seq::empty(), usize::MAX as int);
    }
    Ok((w.bytes, root))
}

/// Checks the archived string at `pos`: descriptor bounds first, then its
/// alignment, then the payload's place — out of the buffer is out of
/// bounds, reaching into or past the descriptor is an overlap — and the
/// payload's UTF-8 well-formedness last, at the offending position.
pub fn validate_str(buf: &Vec<u8>, pos: usize) -> (r: Result<(), Error>)
    ensures
        r is Ok <==> str_wf_at(buf@, pos as int),
        pos + STR_SIZE > buf@.len() ==> r == Result::<(), Error>::Err(Error::OutOfBounds),
        r is Err ==> (r == Result::<(), Error>::Err(Error::OutOfBounds) || r == Result::<
            (),
            Error,
        >::Err(Error::Unaligned) || r == Result::<(), Error>::Err(Error::OverlapError) || r
            == Result::<(), Error>::Err(Error::InvalidUtf8)),
{
    let len = buf.len();
    if len < STR_SIZE || pos > len - STR_SIZE {
        return Err(Error::OutOfBounds);
    }
    if pos % STR_ALIGN != 0 {
        return Err(Error::Unaligned);
    }
    let d = load_i32_at(buf, pos);
    let n = load_u32_at(buf, pos + 4);
    let q = match apply_offset(pos, d) {
        Ok(q) => q,
        Err(_) => {
            return Err(Error::OutOfBounds);
        },
    };
    if q > pos {
        return Err(Error::OverlapError);
    }
    if (n as usize) > pos - q {
        return Err(Error::OverlapError);
    }
    if !check_utf8_range(buf, q, n as usize) {
        return Err(Error::InvalidUtf8);
    }
    Ok(())
}

/// The position of the archived payload: where the relative pointer lands.
pub fn str_payload_pos(buf: &Vec<u8>, pos: usize) -> (r: usize)
    requires
        str_wf_at(buf@, pos as int),
    ensures
        r == pos + spec_i32_from_le_bytes(buf@.subrange(pos as int, pos + 4)),
{
    let blen = buf.len();
    let d = load_i32_at(buf, pos);
    match apply_offset(pos, d) {
        Ok(q) => q,
        Err(_) => {
            proof {
                assert(false);
            }
            0
        },
    }
}

/// The length of the archived payload.
pub fn str_len(buf: &Vec<u8>, pos: usize) -> (r: usize)
    requires
        str_wf_at(buf@, pos as int),
    ensures
        r == spec_str_at(buf@, pos as int).len(),
{
    let blen = buf.len();
    let n = load_u32_at(buf, pos + 4);
    n as usize
}

/// Reconstructs the owned string archived at `pos`.
pub fn deserialize_str(buf: &Vec<u8>, pos: usize) -> (r: Utf8String)
    requires
        str_wf_at(buf@, pos as int),
    ensures
        r.bytes@ == spec_str_at(buf@, pos as int),
        r.wf(),
{
    let blen = buf.len();
    let q = str_payload_pos(buf, pos);
    let n = str_len(buf, pos);
    let bytes = load_bytes(buf, q, n);
    Utf8String { bytes }
}

/// Validator soundness for strings: on a well-formed descriptor the
/// pointer chase lands in bounds — the payload lies entirely between the
/// buffer's start and the descriptor, so no access through it can read
/// past either end.
pub proof fn lemma_str_access_sound(b: Seq<u8>, pos: int)
    requires
        str_wf_at(b, pos),
    ensures
        0 <= pos && pos + STR_SIZE <= b.len(),
        pos % (STR_ALIGN as int) == 0,
        ({
            let q = pos + spec_i32_from_le_bytes(b.subrange(pos, pos + 4));
            let n = spec_u32_from_le_bytes(b.subrange(pos + 4, pos + 8));
            0 <= q && q + n <= b.len()
        }),
{
}

/// Upper-cases the archived string's payload in place: a byte-for-byte
/// fold that keeps the length, keeps UTF-8 well-formedness, and moves no
/// other byte of the buffer.
pub fn uppercase_str_in_place(buf: &mut Vec<u8>, pos: usize)
    requires
        str_wf_at(old(buf)@, pos as int),
    ensures
        final(buf)@.len() == old(buf)@.len(),
        str_wf_at(final(buf)@, pos as int),
        spec_str_at(final(buf)@, pos as int) == spec_upper_seq(
            spec_str_at(old(buf)@, pos as int),
        ),
        forall|i: int|
            0 <= i < old(buf)@.len() && !(pos + spec_i32_from_le_bytes(
                old(buf)@.subrange(pos as int, pos + 4),
            ) <= i < pos + spec_i32_from_le_bytes(old(buf)@.subrange(pos as int, pos + 4))
                + spec_str_at(old(buf)@, pos as int).len()) ==> final(buf)@[i] == old(buf)@[i],
{
    let blen = buf.len();
    let q = str_payload_pos(buf, pos);
    let n = str_len(buf, pos);
    ascii_uppercase_range(buf, q, n);
    proof {
        lemma_upper_preserves_utf8(old(buf)@.subrange(q as int, q + n));
        assert(buf@.subrange(pos as int, pos + 4) =~= old(buf)@.subrange(pos as int, pos + 4));
        assert(buf@.subrange(pos + 4, pos + 8) =~= old(buf)@.subrange(pos + 4, pos + 8));
        assert(buf@.subrange(q as int, q + n) == spec_upper_seq(
            old(buf)@.subrange(q as int, q + n),
        ));
    }
}

} // verus!
