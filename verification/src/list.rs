//! A recursive type archived through owning relative pointers.
//!
//! Each list cell occupies sixteen bytes: a tag byte (0 empty, 1 node),
//! three bytes of padding, the value, the relative pointer to the next cell,
//! and four bytes of tail padding. Children are written before their
//! parents, so every relative pointer points strictly backwards and the root
//! cell is the last thing written: the root position is `len - 16`.

use crate::codec::{
    lemma_i32_le_bytes_roundtrip, load_i32_at, load_u8_at, spec_i32_from_le_bytes,
    spec_i32_to_le_bytes, spec_zeros, store_i32_at, store_u8_at,
};
use crate::error::Error;
use crate::layout::{lemma_align_up, spec_align_up};
use crate::relptr::{apply_offset, offset_fits, rel_offset};
use crate::writer::Writer;
use vstd::prelude::*;

verus! {

/// A singly linked list of integers, owned box by box.
#[derive(Debug, PartialEq, Eq)]
pub enum LinkedList {
    Empty,
    Node { val: i32, next: Box<LinkedList> },
}

/// The archived size of one list cell.
pub const LIST_SIZE: usize = 16;

/// The archived alignment of list cells in this configuration.
pub const LIST_ALIGN: usize = 8;

/// The values of the list, front to back: its mathematical view.
pub open spec fn list_view(v: LinkedList) -> Seq<i32>
    decreases v,
{
    match v {
        LinkedList::Empty => Seq::empty(),
        LinkedList::Node { val, next } => seq![val] + list_view(*next),
    }
}

/// The number of cells the list archives, the empty tail included: the
/// recursion depth its validation takes.
pub open spec fn list_depth(v: LinkedList) -> nat
    decreases v,
{
    match v {
        LinkedList::Empty => 1,
        LinkedList::Node { next, .. } => 1 + list_depth(*next),
    }
}

/// Equal views mean equal lists: the view loses nothing.
pub proof fn lemma_list_view_injective(a: LinkedList, b: LinkedList)
    requires
        list_view(a) == list_view(b),
    ensures
        a == b,
    decreases a,
{
    match a {
        LinkedList::Empty => {
            if let LinkedList::Node { val, next } = b {
                assert(list_view(b).len() >= 1);
            }
        },
        LinkedList::Node { val, next } => {
            assert(list_view(a).len() >= 1);
            match b {
                LinkedList::Empty => {
                    assert(list_view(b).len() == 0);
                },
                LinkedList::Node { val: val2, next: next2 } => {
                    assert(list_view(a)[0] == val);
                    assert(list_view(b)[0] == val2);
                    assert(list_view(*next) =~= list_view(a).subrange(
                        1,
                        list_view(a).len() as int,
                    ));
                    assert(list_view(*next2) =~= list_view(b).subrange(
                        1,
                        list_view(b).len() as int,
                    ));
                    lemma_list_view_injective(*next, *next2);
                },
            }
        },
    }
}

/// The sixteen bytes of one archived cell.
pub open spec fn spec_list_cell(tag: u8, val: i32, d: i32) -> Seq<u8> {
    seq![tag, 0u8, 0u8, 0u8] + spec_i32_to_le_bytes(val) + spec_i32_to_le_bytes(d) + seq![
        0u8,
        0u8,
        0u8,
        0u8,
    ]
}

/// What serializing `v` appends to a buffer `b`, and the position of `v`'s
/// own cell: children first, the value's cell last, each cell at the next
/// eight-aligned position.
pub open spec fn spec_list_ser(v: LinkedList, b: Seq<u8>) -> (Seq<u8>, int)
    decreases v,
{
    match v {
        LinkedList::Empty => {
            let p = spec_align_up(b.len() as int, 8);
            (b + spec_zeros(p - b.len()) + spec_list_cell(0, 0, 0), p)
        },
        LinkedList::Node { val, next } => {
            let (b1, q) = spec_list_ser(*next, b);
            let p = spec_align_up(b1.len() as int, 8);
            let d = q - (p + 8);
            (b1 + spec_zeros(p - b1.len()) + spec_list_cell(1, val, d as i32), p)
        },
    }
}

/// Whether serializing `v` after `b` succeeds against a writer bound:
/// every cell must fit under the bound and every relative offset must fit
/// the configured width.
pub open spec fn spec_list_ser_ok(v: LinkedList, b: Seq<u8>, limit: int) -> bool
    decreases v,
{
    match v {
        LinkedList::Empty => spec_align_up(b.len() as int, 8) + LIST_SIZE <= limit,
        LinkedList::Node { val, next } => {
            &&& spec_list_ser_ok(*next, b, limit)
            &&& {
                let (b1, q) = spec_list_ser(*next, b);
                let p = spec_align_up(b1.len() as int, 8);
                &&& p + LIST_SIZE <= limit
                &&& offset_fits(p + 8, q)
            }
        },
    }
}

/// A well-formed archived list cell at `pos`, checked to a recursion bound:
/// in bounds, aligned, tag 0 or 1, and for a node a relative pointer whose
/// target is aligned, in bounds, and strictly before the cell — pointees
/// precede their pointers, which also rules every cycle out.
pub open spec fn list_wf_fuel(b: Seq<u8>, pos: int, fuel: nat) -> bool
    decreases fuel,
{
    &&& fuel > 0
    &&& 0 <= pos
    &&& pos % (LIST_ALIGN as int) == 0
    &&& pos + LIST_SIZE <= b.len()
    &&& b[pos] <= 1
    &&& (b[pos] == 1 ==> {
        let q = pos + 8 + spec_i32_from_le_bytes(b.subrange(pos + 8, pos + 12));
        &&& 0 <= q
        &&& q < pos
        &&& q % (LIST_ALIGN as int) == 0
        &&& list_wf_fuel(b, q, (fuel - 1) as nat)
    })
}

/// A well-formed archived list cell at `pos`, to any depth.
pub open spec fn list_wf_at(b: Seq<u8>, pos: int) -> bool
    decreases pos,
{
    &&& 0 <= pos
    &&& pos % (LIST_ALIGN as int) == 0
    &&& pos + LIST_SIZE <= b.len()
    &&& b[pos] <= 1
    &&& (b[pos] == 1 ==> {
        let q = pos + 8 + spec_i32_from_le_bytes(b.subrange(pos + 8, pos + 12));
        &&& 0 <= q
        &&& q < pos
        &&& q % (LIST_ALIGN as int) == 0
        &&& list_wf_at(b, q)
    })
}

/// The values archived at `pos`, front to back.
pub open spec fn spec_list_vals_at(b: Seq<u8>, pos: int) -> Seq<i32>
    recommends
        list_wf_at(b, pos),
    decreases pos,
{
    if 0 <= pos && pos + LIST_SIZE <= b.len() && b[pos] == 1 {
        let q = pos + 8 + spec_i32_from_le_bytes(b.subrange(pos + 8, pos + 12));
        if 0 <= q < pos {
            seq![spec_i32_from_le_bytes(b.subrange(pos + 4, pos + 8))] + spec_list_vals_at(b, q)
        } else {
            Seq::empty()
        }
    } else {
        Seq::empty()
    }
}

/// Validation to a bound holds for any larger bound.
pub proof fn lemma_list_wf_fuel_mono(b: Seq<u8>, pos: int, f: nat, g: nat)
    requires
        list_wf_fuel(b, pos, f),
        f <= g,
    ensures
        list_wf_fuel(b, pos, g),
    decreases f,
{
    if b[pos] == 1 {
        let q = pos + 8 + spec_i32_from_le_bytes(b.subrange(pos + 8, pos + 12));
        lemma_list_wf_fuel_mono(b, q, (f - 1) as nat, (g - 1) as nat);
    }
}

/// Validator soundness: a cell validated to any bound is well-formed — its
/// whole reachable subtree sits in bounds, aligned, strictly backwards.
pub proof fn lemma_list_wf_fuel_implies_wf(b: Seq<u8>, pos: int, fuel: nat)
    requires
        list_wf_fuel(b, pos, fuel),
    ensures
        list_wf_at(b, pos),
    decreases fuel,
{
    if b[pos] == 1 {
        let q = pos + 8 + spec_i32_from_le_bytes(b.subrange(pos + 8, pos + 12));
        lemma_list_wf_fuel_implies_wf(b, q, (fuel - 1) as nat);
    }
}

/// Bytes appended after a well-formed cell change nothing about it: its
/// whole subtree lies before `pos + 16`, so well-formedness and the decoded
/// values carry over to the longer buffer.
pub proof fn lemma_list_wf_extend(b: Seq<u8>, b2: Seq<u8>, pos: int, fuel: nat)
    requires
        list_wf_fuel(b, pos, fuel),
        b2.len() >= b.len(),
        b2.subrange(0, b.len() as int) == b,
    ensures
        list_wf_fuel(b2, pos, fuel),
        spec_list_vals_at(b2, pos) == spec_list_vals_at(b, pos),
    decreases fuel,
{
    assert forall|i: int| 0 <= i < b.len() implies b2[i] == b[i] by {
        assert(b2.subrange(0, b.len() as int)[i] == b2[i]);
    }
    assert(b2.subrange(pos + 8, pos + 12) =~= b.subrange(pos + 8, pos + 12));
    assert(b2.subrange(pos + 4, pos + 8) =~= b.subrange(pos + 4, pos + 8));
    if b[pos] == 1 {
        let q = pos + 8 + spec_i32_from_le_bytes(b.subrange(pos + 8, pos + 12));
        lemma_list_wf_extend(b, b2, q, (fuel - 1) as nat);
    }
}

/// The serialization protocol is correct: what `spec_list_ser` appends
/// leaves the old bytes alone, places the root cell last at an aligned
/// position, validates to exactly the list's depth, and decodes to the
/// list's own values.
pub proof fn lemma_list_ser_correct(v: LinkedList, b: Seq<u8>, limit: int)
    requires
        spec_list_ser_ok(v, b, limit),
    ensures
        ({
            let (b2, p) = spec_list_ser(v, b);
            &&& b.len() <= p
            &&& p % (LIST_ALIGN as int) == 0
            &&& p + LIST_SIZE == b2.len()
            &&& b2.len() <= limit
            &&& b2.subrange(0, b.len() as int) == b
            &&& list_wf_fuel(b2, p, list_depth(v))
            &&& spec_list_vals_at(b2, p) == list_view(v)
        }),
    decreases v,
{
    lemma_i32_le_bytes_roundtrip(0);
    match v {
        LinkedList::Empty => {
            let p = spec_align_up(b.len() as int, 8);
            lemma_align_up(b.len() as int, 8);
            let (b2, p2) = spec_list_ser(v, b);
            assert(b2.subrange(0, b.len() as int) =~= b);
            assert(b2[p] == 0);
        },
        LinkedList::Node { val, next } => {
            lemma_list_ser_correct(*next, b, limit);
            let (b1, q) = spec_list_ser(*next, b);
            let p = spec_align_up(b1.len() as int, 8);
            lemma_align_up(b1.len() as int, 8);
            let d = q - (p + 8);
            let (b2, p2) = spec_list_ser(v, b);
            assert(b2 == b1 + spec_zeros(p - b1.len()) + spec_list_cell(1, val, d as i32));
            assert(offset_fits(p + 8, q));
            assert(d as i32 == d);
            lemma_i32_le_bytes_roundtrip(d as i32);
            lemma_i32_le_bytes_roundtrip(val);
            assert(b2.subrange(0, b1.len() as int) =~= b1);
            assert(b2.subrange(0, b.len() as int) =~= b);
            lemma_list_wf_extend(b1, b2, q, list_depth(*next));
            assert(b2[p] == 1);
            assert(b2.subrange(p + 8, p + 12) =~= spec_i32_to_le_bytes(d as i32));
            assert(b2.subrange(p + 4, p + 8) =~= spec_i32_to_le_bytes(val));
            assert(p + 8 + spec_i32_from_le_bytes(b2.subrange(p + 8, p + 12)) == q);
            assert(q + LIST_SIZE == b1.len());
            assert(list_wf_fuel(b2, p, list_depth(v)));
            assert(spec_list_vals_at(b2, p) =~= list_view(v));
        },
    }
}

/// Serializes the cells of `v` into the writer, children before parents,
/// and returns the position of `v`'s own cell. Succeeds exactly when every
/// cell fits the writer's bound and every offset fits the configured width;
/// on failure the partial buffer is left to be discarded.
pub fn serialize_list(v: &LinkedList, w: &mut Writer) -> (r: Result<usize, Error>)
    requires
        old(w).wf(),
    ensures
        final(w).wf(),
        final(w).limit == old(w).limit,
        r is Ok <==> spec_list_ser_ok(*v, old(w).bytes@, old(w).limit as int),
        r matches Ok(p) ==> final(w).bytes@ == spec_list_ser(*v, old(w).bytes@).0 && p
            == spec_list_ser(*v, old(w).bytes@).1,
        r matches Err(e) ==> (e == Error::OutOfSpace || e == Error::OffsetOverflow),
    decreases *v,
{
    match v {
        LinkedList::Empty => {
            let place = match w.reserve(LIST_SIZE, LIST_ALIGN) {
                Ok(p) => p,
                Err(e) => {
                    return Err(e);
                },
            };
            store_u8_at(&mut w.bytes, place.pos, 0);
            store_i32_at(&mut w.bytes, place.pos + 4, 0);
            store_i32_at(&mut w.bytes, place.pos + 8, 0);
            proof {
                lemma_i32_le_bytes_roundtrip(0);
                assert(w.bytes@ =~= spec_list_ser(*v, old(w).bytes@).0);
            }
            Ok(place.pos)
        },
        LinkedList::Node { val, next } => {
            let q = match serialize_list(next, w) {
                Ok(q) => q,
                Err(e) => {
                    return Err(e);
                },
            };
            let ghost b1 = w.bytes@;
            let place = match w.reserve(LIST_SIZE, LIST_ALIGN) {
                Ok(p) => p,
                Err(e) => {
                    return Err(e);
                },
            };
            let d = match rel_offset(place.pos + 8, q) {
                Ok(d) => d,
                Err(e) => {
                    return Err(e);
                },
            };
            store_u8_at(&mut w.bytes, place.pos, 1);
            store_i32_at(&mut w.bytes, place.pos + 4, *val);
            store_i32_at(&mut w.bytes, place.pos + 8, d);
            proof {
                lemma_i32_le_bytes_roundtrip(d);
                lemma_i32_le_bytes_roundtrip(*val);
                let dd = q - (place.pos + 8);
                assert(d == dd as i32);
                assert(w.bytes@ =~= spec_list_ser(*v, old(w).bytes@).0);
            }
            Ok(place.pos)
        },
    }
}

/// Serializes `v` into a fresh buffer and returns it with the root
/// position: the last cell written, `len - 16`. Succeeds exactly when every
/// relative offset fits the configured width under an unbounded writer.
pub fn to_bytes_list(v: &LinkedList) -> (r: Result<(Vec<u8>, usize), Error>)
    ensures
        r is Ok <==> spec_list_ser_ok(*v, Seq::empty(), usize::MAX as int),
        r matches Ok(p) ==> {
            &&& p.0@ == spec_list_ser(*v, Seq::empty()).0
            &&& p.1 == spec_list_ser(*v, Seq::empty()).1
            &&& p.1 + LIST_SIZE == p.0@.len()
            &&& list_wf_fuel(p.0@, p.1 as int, list_depth(*v))
            &&& list_wf_at(p.0@, p.1 as int)
            &&& spec_list_vals_at(p.0@, p.1 as int) == list_view(*v)
        },
{
    let mut w = Writer::new();
    proof {
        assert(w.bytes@ =~= Seq::<u8>::empty());
    }
    let root = match serialize_list(v, &mut w) {
        Ok(q) => q,
        Err(e) => {
            return Err(e);
        },
    };
    proof {
        lemma_list_ser_correct(*v, Seq::empty(), usize::MAX as int);
        lemma_list_wf_fuel_implies_wf(w.bytes@, root as int, list_depth(*v));
    }
    Ok((w.bytes, root))
}

/// Checks the archived list at `pos` against a recursion bound: each frame
/// checks bounds first, then alignment, then the tag, then the relative
/// pointer's target, and recurses with one frame fewer. A bound of zero is
/// exhausted before anything is read.
pub fn validate_list(buf: &Vec<u8>, pos: usize, limit: usize) -> (r: Result<(), Error>)
    ensures
        r is Ok <==> list_wf_fuel(buf@, pos as int, limit as nat),
        limit == 0 ==> r == Result::<(), Error>::Err(Error::DepthExceeded),
        limit > 0 && pos + LIST_SIZE > buf@.len() ==> r == Result::<(), Error>::Err(
            Error::OutOfBounds,
        ),
        limit > 0 && pos + LIST_SIZE <= buf@.len() && pos as int % (LIST_ALIGN as int) != 0 ==> r
            == Result::<(), Error>::Err(Error::Unaligned),
        limit > 0 && pos + LIST_SIZE <= buf@.len() && pos as int % (LIST_ALIGN as int) == 0
            && buf@[pos as int] > 1 ==> r == Result::<(), Error>::Err(Error::InvalidDiscriminant),
    decreases limit,
{
    if limit == 0 {
        return Err(Error::DepthExceeded);
    }
    let len = buf.len();
    if len < LIST_SIZE || pos > len - LIST_SIZE {
        return Err(Error::OutOfBounds);
    }
    if pos % LIST_ALIGN != 0 {
        return Err(Error::Unaligned);
    }
    let tag = load_u8_at(buf, pos);
    if tag > 1 {
        return Err(Error::InvalidDiscriminant);
    }
    if tag == 0 {
        return Ok(());
    }
    let d = load_i32_at(buf, pos + 8);
    let q = match apply_offset(pos + 8, d) {
        Ok(q) => q,
        Err(e) => {
            return Err(e);
        },
    };
    if q >= pos {
        return Err(Error::CycleDetected);
    }
    if q % LIST_ALIGN != 0 {
        return Err(Error::Unaligned);
    }
    validate_list(buf, q, limit - 1)
}

/// Reconstructs the native list archived at `pos`, cell by cell.
pub fn deserialize_list(buf: &Vec<u8>, pos: usize) -> (r: LinkedList)
    requires
        list_wf_at(buf@, pos as int),
    ensures
        list_view(r) == spec_list_vals_at(buf@, pos as int),
    decreases pos,
{
    let blen = buf.len();
    let tag = load_u8_at(buf, pos);
    if tag == 0 {
        LinkedList::Empty
    } else {
        let val = load_i32_at(buf, pos + 4);
        let d = load_i32_at(buf, pos + 8);
        match apply_offset(pos + 8, d) {
            Ok(q) => {
                let next = deserialize_list(buf, q);
                LinkedList::Node { val, next: Box::new(next) }
            },
            Err(_) => {
                proof {
                    assert(false);
                }
                LinkedList::Empty
            },
        }
    }
}

/// Validator soundness for lists: every cell of a well-formed list sits in
/// bounds and aligned, and every relative pointer lands strictly earlier —
/// so a walk from the root neither reads out of bounds nor revisits a
/// cell.
pub proof fn lemma_list_access_sound(b: Seq<u8>, pos: int)
    requires
        list_wf_at(b, pos),
    ensures
        0 <= pos && pos + LIST_SIZE <= b.len(),
        pos % (LIST_ALIGN as int) == 0,
        b[pos] == 1 ==> {
            let q = pos + 8 + spec_i32_from_le_bytes(b.subrange(pos + 8, pos + 12));
            &&& 0 <= q < pos
            &&& q % (LIST_ALIGN as int) == 0
            &&& list_wf_at(b, q)
        },
{
}

/// Round-trip identity for lists: a serialized list validates at exactly
/// its own depth and decodes, value for value, to the list it came from.
pub proof fn lemma_list_roundtrip(v: LinkedList, limit: int)
    requires
        spec_list_ser_ok(v, Seq::empty(), limit),
    ensures
        ({
            let (b2, p) = spec_list_ser(v, Seq::empty());
            &&& list_wf_fuel(b2, p, list_depth(v))
            &&& spec_list_vals_at(b2, p) == list_view(v)
        }),
{
    lemma_list_ser_correct(v, Seq::empty(), limit);
}

} // verus!
