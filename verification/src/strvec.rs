//! Vectors of strings: a variable-length sequence of string descriptors
//! behind a root descriptor.
//!
//! The layout, front to back: every payload's raw bytes, in element order
//! and disjoint; padding; the descriptor region — one eight-byte string
//! descriptor per element; and the root descriptor (offset to the region,
//! element count), written last. The validator walks the region and checks
//! every element, and rejects payloads that overlap one another or reach
//! into the descriptors.

use crate::codec::{
    load_i32_at, load_u32_at, spec_i32_from_le_bytes, spec_i32_to_le_bytes, spec_zeros,
    store_i32_at, store_u32_at,
};
use crate::error::Error;
use crate::layout::{lemma_align_up, spec_align_up};
use crate::relptr::{apply_offset, offset_fits, rel_offset};
use crate::strings::{
    deserialize_str, str_wf_at, spec_str_at, uppercase_str_in_place, validate_str, Utf8String,
};
use crate::utf8::{spec_is_utf8, spec_upper_seq};
use crate::writer::Writer;
use vstd::bytes::{
    lemma_auto_spec_u32_to_from_le_bytes, spec_u32_from_le_bytes, spec_u32_to_le_bytes,
};
use vstd::prelude::*;

verus! {

/// The size of the root descriptor of an archived vector.
pub const STRVEC_SIZE: usize = 8;

/// The alignment of vector descriptors.
pub const STRVEC_ALIGN: usize = 4;

/// The payload views of a vector of strings.
pub open spec fn strvec_views(vs: Seq<Utf8String>) -> Seq<Seq<u8>> {
    Seq::new(vs.len(), |i: int| vs[i].bytes@)
}

/// The summed length of the first `k` payloads.
pub open spec fn lens_sum(ss: Seq<Seq<u8>>, k: int) -> int
    decreases k,
{
    if k <= 0 {
        0
    } else {
        lens_sum(ss, k - 1) + ss[k - 1].len()
    }
}

/// The first `k` payloads, laid end to end.
pub open spec fn cat_payloads(ss: Seq<Seq<u8>>, k: int) -> Seq<u8>
    decreases k,
{
    if k <= 0 {
        Seq::empty()
    } else {
        cat_payloads(ss, k - 1) + ss[k - 1]
    }
}

/// The first `k` descriptors, laid end to end: descriptor `i` sits at
/// `rpos + 8 i` and points back at its payload, which starts at
/// `base + lens_sum(ss, i)`.
pub open spec fn cat_descs(ss: Seq<Seq<u8>>, base: int, rpos: int, k: int) -> Seq<u8>
    decreases k,
{
    if k <= 0 {
        Seq::empty()
    } else {
        cat_descs(ss, base, rpos, k - 1) + spec_i32_to_le_bytes(
            ((base + lens_sum(ss, k - 1)) - (rpos + 8 * (k - 1))) as i32,
        ) + spec_u32_to_le_bytes(ss[k - 1].len() as u32)
    }
}

/// Summed lengths grow with the index.
pub proof fn lemma_lens_sum_mono(ss: Seq<Seq<u8>>, i: int, j: int)
    requires
        i <= j,
    ensures
        lens_sum(ss, i) <= lens_sum(ss, j),
    decreases j - i,
{
    if i < j {
        lemma_lens_sum_mono(ss, i, j - 1);
    }
}

/// A region position stays four-aligned as descriptors are appended.
pub proof fn lemma_region_aligned(rpos: int, i: int)
    requires
        rpos % 4 == 0,
        0 <= i,
    ensures
        (rpos + 8 * i) % 4 == 0,
{
    vstd::arithmetic::div_mod::lemma_mod_multiples_basic(2 * i, 4);
    assert(8 * i == (2 * i) * 4);
    vstd::arithmetic::div_mod::lemma_add_mod_noop(rpos, 8 * i, 4);
}

/// `cat_payloads` is as long as its summed lengths; `cat_descs` holds eight
/// bytes per descriptor.
pub proof fn lemma_cat_lens(ss: Seq<Seq<u8>>, base: int, rpos: int, k: int)
    ensures
        cat_payloads(ss, k).len() == if k <= 0 {
            0
        } else {
            lens_sum(ss, k)
        },
        cat_descs(ss, base, rpos, k).len() == if k <= 0 {
            0
        } else {
            8 * k
        },
        0 <= cat_payloads(ss, k).len(),
    decreases k,
{
    lemma_auto_spec_u32_to_from_le_bytes();
    if k > 0 {
        lemma_cat_lens(ss, base, rpos, k - 1);
        crate::codec::lemma_i32_le_bytes_roundtrip(
            ((base + lens_sum(ss, k - 1)) - (rpos + 8 * (k - 1))) as i32,
        );
    }
}

/// Each payload is recoverable from the concatenation: the bytes between
/// its summed-length bounds are the payload itself.
pub proof fn lemma_cat_payloads_extract(ss: Seq<Seq<u8>>, k: int, i: int)
    requires
        0 <= i < k,
    ensures
        lens_sum(ss, i) >= 0,
        lens_sum(ss, i + 1) <= cat_payloads(ss, k).len(),
        cat_payloads(ss, k).subrange(lens_sum(ss, i), lens_sum(ss, i + 1)) == ss[i],
    decreases k,
{
    lemma_cat_lens(ss, 0, 0, k);
    lemma_cat_lens(ss, 0, 0, i);
    lemma_lens_sum_mono(ss, 0, i);
    lemma_lens_sum_mono(ss, i + 1, k);
    if i == k - 1 {
        lemma_cat_lens(ss, 0, 0, k - 1);
        assert(cat_payloads(ss, k).subrange(lens_sum(ss, i), lens_sum(ss, i + 1)) =~= ss[i]);
    } else {
        lemma_cat_payloads_extract(ss, k - 1, i);
        lemma_cat_lens(ss, 0, 0, k - 1);
        assert(cat_payloads(ss, k).subrange(lens_sum(ss, i), lens_sum(ss, i + 1)) =~= cat_payloads(
            ss,
            k - 1,
        ).subrange(lens_sum(ss, i), lens_sum(ss, i + 1)));
    }
}

/// Each descriptor is recoverable from the concatenation.
pub proof fn lemma_cat_descs_extract(ss: Seq<Seq<u8>>, base: int, rpos: int, k: int, i: int)
    requires
        0 <= i < k,
    ensures
        cat_descs(ss, base, rpos, k).subrange(8 * i, 8 * i + 4) == spec_i32_to_le_bytes(
            ((base + lens_sum(ss, i)) - (rpos + 8 * i)) as i32,
        ),
        cat_descs(ss, base, rpos, k).subrange(8 * i + 4, 8 * i + 8) == spec_u32_to_le_bytes(
            ss[i].len() as u32,
        ),
    decreases k,
{
    lemma_auto_spec_u32_to_from_le_bytes();
    lemma_cat_lens(ss, base, rpos, k);
    lemma_cat_lens(ss, base, rpos, k - 1);
    crate::codec::lemma_i32_le_bytes_roundtrip(
        ((base + lens_sum(ss, k - 1)) - (rpos + 8 * (k - 1))) as i32,
    );
    if i == k - 1 {
        assert(cat_descs(ss, base, rpos, k).subrange(8 * i, 8 * i + 4) =~= spec_i32_to_le_bytes(
            ((base + lens_sum(ss, i)) - (rpos + 8 * i)) as i32,
        ));
        assert(cat_descs(ss, base, rpos, k).subrange(8 * i + 4, 8 * i + 8)
            =~= spec_u32_to_le_bytes(ss[i].len() as u32));
    } else {
        lemma_cat_descs_extract(ss, base, rpos, k - 1, i);
        assert(cat_descs(ss, base, rpos, k).subrange(8 * i, 8 * i + 4) =~= cat_descs(
            ss,
            base,
            rpos,
            k - 1,
        ).subrange(8 * i, 8 * i + 4));
        assert(cat_descs(ss, base, rpos, k).subrange(8 * i + 4, 8 * i + 8) =~= cat_descs(
            ss,
            base,
            rpos,
            k - 1,
        ).subrange(8 * i + 4, 8 * i + 8));
    }
}

/// What serializing the vector appends to `b`, and the root position.
pub open spec fn spec_strvec_ser(ss: Seq<Seq<u8>>, b: Seq<u8>) -> (Seq<u8>, int) {
    let base = b.len() as int;
    let total = lens_sum(ss, ss.len() as int);
    let rpos = spec_align_up(base + total, STRVEC_ALIGN as int);
    let root = rpos + 8 * ss.len();
    (
        b + cat_payloads(ss, ss.len() as int) + spec_zeros(rpos - (base + total)) + cat_descs(
            ss,
            base,
            rpos,
            ss.len() as int,
        ) + spec_i32_to_le_bytes((rpos - root) as i32) + spec_u32_to_le_bytes(ss.len() as u32),
        root,
    )
}

/// Whether serializing the vector after `b` succeeds against a writer
/// bound: every length and offset must fit the configured width, and the
/// root must end under the bound.
pub open spec fn spec_strvec_ser_ok(ss: Seq<Seq<u8>>, b: Seq<u8>, limit: int) -> bool {
    let base = b.len() as int;
    let total = lens_sum(ss, ss.len() as int);
    let rpos = spec_align_up(base + total, STRVEC_ALIGN as int);
    let root = rpos + 8 * ss.len();
    &&& ss.len() <= u32::MAX
    &&& forall|i: int|
        0 <= i < ss.len() ==> (#[trigger] ss[i]).len() <= u32::MAX && offset_fits(
            rpos + 8 * i,
            base + lens_sum(ss, i),
        )
    &&& offset_fits(root, rpos)
    &&& root + STRVEC_SIZE <= limit
}

/// The offset stored in the descriptor at `dpos`, applied: where its
/// payload starts.
pub open spec fn desc_q(b: Seq<u8>, dpos: int) -> int {
    dpos + spec_i32_from_le_bytes(b.subrange(dpos, dpos + 4))
}

/// The length stored in the descriptor at `dpos`.
pub open spec fn desc_n(b: Seq<u8>, dpos: int) -> int {
    spec_u32_from_le_bytes(b.subrange(dpos + 4, dpos + 8)) as int
}

/// A well-formed archived vector of strings at `pos`: root in bounds and
/// aligned; the region aligned, fully before the root; every element
/// well-formed with its payload before the region; and the payloads in
/// order and disjoint — so an in-place edit of one element can touch no
/// other.
pub open spec fn strvec_wf_at(b: Seq<u8>, pos: int) -> bool {
    &&& 0 <= pos
    &&& pos % (STRVEC_ALIGN as int) == 0
    &&& pos + STRVEC_SIZE <= b.len()
    &&& {
        let r = desc_q(b, pos);
        let n = desc_n(b, pos);
        &&& 0 <= r
        &&& r % (STRVEC_ALIGN as int) == 0
        &&& r + 8 * n <= pos
        &&& forall|i: int| 0 <= i < n ==> str_wf_at(b, #[trigger] (r + 8 * i))
        &&& forall|i: int|
            0 <= i < n ==> desc_q(b, r + 8 * i) + desc_n(b, #[trigger] (r + 8 * i)) <= r
        &&& forall|i: int|
            0 <= i < n - 1 ==> desc_q(b, r + 8 * i) + desc_n(b, #[trigger] (r + 8 * i)) <= desc_q(
                b,
                r + 8 * (i + 1),
            )
    }
}

/// The payloads archived at `pos`, element by element.
pub open spec fn spec_strvec_at(b: Seq<u8>, pos: int) -> Seq<Seq<u8>>
    recommends
        strvec_wf_at(b, pos),
{
    let r = desc_q(b, pos);
    let n = desc_n(b, pos);
    Seq::new(n as nat, |i: int| spec_str_at(b, r + 8 * i))
}

/// Payloads of distinct elements are disjoint: an edit inside element `i`'s
/// payload leaves element `j`'s bytes alone.
pub proof fn lemma_strvec_payloads_disjoint(b: Seq<u8>, r: int, i: int, j: int)
    requires
        0 <= i < j,
        forall|k: int|
            i <= k < j ==> desc_q(b, r + 8 * k) + desc_n(b, #[trigger] (r + 8 * k)) <= desc_q(
                b,
                r + 8 * (k + 1),
            ),
        forall|k: int| i <= k <= j ==> 0 <= desc_n(b, #[trigger] (r + 8 * k)),
    ensures
        desc_q(b, r + 8 * i) + desc_n(b, r + 8 * i) <= desc_q(b, r + 8 * j),
    decreases j - i,
{
    if i + 1 < j {
        lemma_strvec_payloads_disjoint(b, r, i + 1, j);
    }
}

/// Serializes all payloads, then the descriptor region, and returns the
/// region's position; the caller writes the root descriptor, standalone or
/// as a struct field.
#[verifier::rlimit(80)]
pub fn serialize_strvec_region(vs: &Vec<Utf8String>, w: &mut Writer) -> (r: Result<usize, Error>)
    requires
        old(w).wf(),
        forall|i: int| 0 <= i < vs@.len() ==> (#[trigger] vs@[i]).wf(),
    ensures
        final(w).wf(),
        final(w).limit == old(w).limit,
        r is Ok ==> {
            let ss = strvec_views(vs@);
            let base = old(w).bytes@.len() as int;
            let total = lens_sum(ss, ss.len() as int);
            let rpos = spec_align_up(base + total, STRVEC_ALIGN as int);
            &&& (forall|i: int|
                0 <= i < ss.len() ==> (#[trigger] ss[i]).len() <= u32::MAX && offset_fits(
                    rpos + 8 * i,
                    base + lens_sum(ss, i),
                ))
            &&& r matches Ok(p) && p == rpos
            &&& final(w).bytes@ == old(w).bytes@ + cat_payloads(ss, ss.len() as int) + spec_zeros(
                rpos - (base + total),
            ) + cat_descs(ss, base, rpos, ss.len() as int)
        },
        r is Err ==> !spec_strvec_ser_ok(
            strvec_views(vs@),
            old(w).bytes@,
            old(w).limit as int,
        ),
        r matches Err(e) ==> (e == Error::OutOfSpace || e == Error::OffsetOverflow),
{
    let ghost ss = strvec_views(vs@);
    let ghost base_g = old(w).bytes@.len() as int;
    let ghost limit_g = old(w).limit as int;
    let n = vs.len();
    let base = w.pos();
    let mut i: usize = 0;
    while i < n
        invariant
            w.wf(),
            w.limit == old(w).limit,
            n == vs@.len(),
            ss == strvec_views(vs@),
            forall|k: int| 0 <= k < vs@.len() ==> (#[trigger] vs@[k]).wf(),
            i <= n,
            base == old(w).bytes@.len(),
            base_g == base as int,
            limit_g == old(w).limit as int,
            forall|k: int| 0 <= k < i ==> (#[trigger] ss[k]).len() <= u32::MAX,
            w.bytes@ == old(w).bytes@ + cat_payloads(ss, i as int),
        decreases n - i,
    {
        proof {
            lemma_cat_lens(ss, 0, 0, i as int);
            assert(ss[i as int] == vs@[i as int].bytes@);
        }
        let s = &vs[i];
        if s.bytes.len() > (u32::MAX as usize) {
            proof {
                assert(!spec_strvec_ser_ok(ss, old(w).bytes@, limit_g)) by {
                    if spec_strvec_ser_ok(ss, old(w).bytes@, limit_g) {
                        assert((ss[i as int]).len() <= u32::MAX);
                    }
                }
            }
            return Err(Error::OffsetOverflow);
        }
        match w.write_slice(&s.bytes) {
            Ok(_) => (),
            Err(e) => {
                proof {
                    lemma_lens_sum_mono(ss, i + 1, ss.len() as int);
                    lemma_lens_sum_mono(ss, 0, ss.len() as int);
                    lemma_align_up(base_g + lens_sum(ss, ss.len() as int), STRVEC_ALIGN as int);
                    assert(!spec_strvec_ser_ok(ss, old(w).bytes@, limit_g)) by {
                        if spec_strvec_ser_ok(ss, old(w).bytes@, limit_g) {
                            assert(8 * (ss.len() as int) >= 0) by {
                                assert(ss.len() as int >= 0);
                            }
                        }
                    }
                }
                return Err(e);
            },
        }
        proof {
            assert(w.bytes@ =~= old(w).bytes@ + cat_payloads(ss, i + 1));
        }
        i += 1;
    }
    proof {
        lemma_cat_lens(ss, 0, 0, n as int);
        lemma_align_up(base_g + lens_sum(ss, n as int), STRVEC_ALIGN as int);
    }
    let ghost rpos_g = spec_align_up(base_g + lens_sum(ss, n as int), STRVEC_ALIGN as int);
    match w.pad_to(STRVEC_ALIGN) {
        Ok(_) => (),
        Err(e) => {
            proof {
                assert(!spec_strvec_ser_ok(ss, old(w).bytes@, limit_g)) by {
                    if spec_strvec_ser_ok(ss, old(w).bytes@, limit_g) {
                        assert(8 * (ss.len() as int) >= 0);
                    }
                }
            }
            return Err(e);
        },
    }
    let rpos = w.pos();
    proof {
        assert(rpos as int == rpos_g);
        assert(w.bytes@ =~= old(w).bytes@ + cat_payloads(ss, n as int) + spec_zeros(
            rpos_g - (base_g + lens_sum(ss, n as int)),
        ));
    }
    let ghost cpre = w.bytes@;
    let mut qpos: usize = base;
    let mut i: usize = 0;
    while i < n
        invariant
            w.wf(),
            w.limit == old(w).limit,
            n == vs@.len(),
            ss == strvec_views(vs@),
            forall|k: int| 0 <= k < vs@.len() ==> (#[trigger] vs@[k]).wf(),
            i <= n,
            base_g == base as int,
            base_g == old(w).bytes@.len() as int,
            limit_g == old(w).limit as int,
            rpos_g == spec_align_up(base_g + lens_sum(ss, n as int), STRVEC_ALIGN as int),
            rpos_g % 4 == 0,
            base_g + lens_sum(ss, n as int) <= rpos_g,
            rpos as int == rpos_g,
            cpre == old(w).bytes@ + cat_payloads(ss, n as int) + spec_zeros(
                rpos_g - (base_g + lens_sum(ss, n as int)),
            ),
            cpre.len() == rpos_g,
            qpos == base_g + lens_sum(ss, i as int),
            forall|k: int| 0 <= k < n ==> (#[trigger] ss[k]).len() <= u32::MAX,
            forall|k: int|
                0 <= k < i ==> offset_fits(#[trigger] (rpos_g + 8 * k), base_g + lens_sum(ss, k)),
            w.bytes@ == cpre + cat_descs(ss, base_g, rpos_g, i as int),
        decreases n - i,
    {
        proof {
            lemma_cat_lens(ss, base_g, rpos_g, i as int);
            lemma_cat_lens(ss, 0, 0, n as int);
            lemma_lens_sum_mono(ss, i as int, n as int);
            lemma_lens_sum_mono(ss, i + 1, n as int);
            lemma_region_aligned(rpos_g, i as int);
            assert(ss[i as int] == vs@[i as int].bytes@);
            assert(w.bytes@.len() == rpos_g + 8 * (i as int));
        }
        let place = match w.reserve(8, STRVEC_ALIGN) {
            Ok(p) => p,
            Err(e) => {
                proof {
                    assert(!spec_strvec_ser_ok(ss, old(w).bytes@, limit_g)) by {
                        if spec_strvec_ser_ok(ss, old(w).bytes@, limit_g) {
                            assert(8 * (i as int) <= 8 * (n as int));
                        }
                    }
                }
                return Err(e);
            },
        };
        proof {
            assert(place.pos == rpos_g + 8 * (i as int));
        }
        let d = match rel_offset(place.pos, qpos) {
            Ok(d) => d,
            Err(e) => {
                proof {
                    assert(!spec_strvec_ser_ok(ss, old(w).bytes@, limit_g)) by {
                        if spec_strvec_ser_ok(ss, old(w).bytes@, limit_g) {
                            assert((ss[i as int]).len() <= u32::MAX && offset_fits(
                                rpos_g + 8 * (i as int),
                                base_g + lens_sum(ss, i as int),
                            ));
                        }
                    }
                }
                return Err(e);
            },
        };
        let ghost bpre = w.bytes@;
        let s = &vs[i];
        let slen = s.bytes.len();
        store_i32_at(&mut w.bytes, place.pos, d);
        store_u32_at(&mut w.bytes, place.pos + 4, slen as u32);
        proof {
            let dd = qpos as int - place.pos as int;
            assert(d == dd as i32);
            lemma_auto_spec_u32_to_from_le_bytes();
            crate::codec::lemma_i32_le_bytes_roundtrip(d);
            lemma_cat_lens(ss, base_g, rpos_g, i + 1);
            assert(w.bytes@.subrange(place.pos as int, place.pos + 4) == spec_i32_to_le_bytes(d));
            assert(w.bytes@.subrange(place.pos + 4, place.pos + 8) == spec_u32_to_le_bytes(
                slen as u32,
            ));
            assert(w.bytes@.subrange(0, place.pos as int) =~= cpre + cat_descs(
                ss,
                base_g,
                rpos_g,
                i as int,
            ));
            assert(cat_descs(ss, base_g, rpos_g, i + 1) == cat_descs(ss, base_g, rpos_g, i as int)
                + spec_i32_to_le_bytes(dd as i32) + spec_u32_to_le_bytes(ss[i as int].len() as u32));
            let tgt = cpre + cat_descs(ss, base_g, rpos_g, i + 1);
            let pp = place.pos as int;
            assert forall|x: int| 0 <= x < rpos_g + 8 * (i as int) + 8 implies w.bytes@[x] == tgt[x] by {
                if x < pp {
                    assert(w.bytes@[x] == w.bytes@.subrange(0, pp)[x]);
                    assert(tgt[x] == (cpre + cat_descs(ss, base_g, rpos_g, i as int))[x]);
                } else if x < pp + 4 {
                    assert(w.bytes@[x] == w.bytes@.subrange(pp, pp + 4)[x - pp]);
                    assert(tgt[x] == spec_i32_to_le_bytes(dd as i32)[x - pp]);
                } else {
                    assert(w.bytes@[x] == w.bytes@.subrange(pp + 4, pp + 8)[x - (pp + 4)]);
                    assert(tgt[x] == spec_u32_to_le_bytes(ss[i as int].len() as u32)[x - (pp + 4)]);
                }
            }
            assert(w.bytes@ =~= cpre + cat_descs(ss, base_g, rpos_g, i + 1));
            assert(w.bytes@.len() <= w.limit);
            assert(qpos + slen == base_g + lens_sum(ss, i + 1));
            assert(base_g + lens_sum(ss, i + 1) <= rpos_g);
        }
        qpos = qpos + slen;
        i += 1;
    }
    proof {
        assert(w.bytes@ =~= old(w).bytes@ + cat_payloads(ss, n as int) + spec_zeros(
            rpos_g - (base_g + lens_sum(ss, n as int)),
        ) + cat_descs(ss, base_g, rpos_g, n as int));
    }
    Ok(rpos)
}

/// Serializes `vs` into a fresh buffer and returns it with the root
/// position: the root descriptor, written last at `len - 8`.
#[verifier::rlimit(80)]
pub fn to_bytes_strvec(vs: &Vec<Utf8String>) -> (r: Result<(Vec<u8>, usize), Error>)
    requires
        forall|i: int| 0 <= i < vs@.len() ==> (#[trigger] vs@[i]).wf(),
    ensures
        r matches Ok(p) ==> {
            &&& p.0@ == spec_strvec_ser(strvec_views(vs@), Seq::empty()).0
            &&& p.1 == spec_strvec_ser(strvec_views(vs@), Seq::empty()).1
            &&& p.1 + STRVEC_SIZE == p.0@.len()
        },
        r is Ok <==> spec_strvec_ser_ok(strvec_views(vs@), Seq::empty(), usize::MAX as int),
{
    let ghost ss = strvec_views(vs@);
    let n = vs.len();
    let mut w = Writer::new();
    proof {
        assert(w.bytes@ =~= Seq::<u8>::empty());
        lemma_cat_lens(ss, 0, 0, n as int);
        lemma_lens_sum_mono(ss, 0, n as int);
        lemma_align_up(lens_sum(ss, n as int), STRVEC_ALIGN as int);
    }
    if n > (u32::MAX as usize) {
        proof {
            assert(!spec_strvec_ser_ok(ss, Seq::empty(), usize::MAX as int));
        }
        return Err(Error::OffsetOverflow);
    }
    let ghost rpos_g = spec_align_up(lens_sum(ss, n as int), STRVEC_ALIGN as int);
    let rpos = match serialize_strvec_region(vs, &mut w) {
        Ok(p) => p,
        Err(e) => {
            return Err(e);
        },
    };
    proof {
        lemma_cat_lens(ss, 0, rpos_g, n as int);
        lemma_region_aligned(rpos_g, n as int);
        assert(w.bytes@.len() == rpos_g + 8 * (n as int));
    }
    let place = match w.reserve(STRVEC_SIZE, STRVEC_ALIGN) {
        Ok(p) => p,
        Err(e) => {
            proof {
                assert(!spec_strvec_ser_ok(ss, Seq::empty(), usize::MAX as int)) by {
                    if spec_strvec_ser_ok(ss, Seq::empty(), usize::MAX as int) {
                    }
                }
            }
            return Err(e);
        },
    };
    proof {
        assert(place.pos == rpos_g + 8 * (n as int));
    }
    let d = match rel_offset(place.pos, rpos) {
        Ok(d) => d,
        Err(e) => {
            proof {
                assert(!spec_strvec_ser_ok(ss, Seq::empty(), usize::MAX as int)) by {
                    if spec_strvec_ser_ok(ss, Seq::empty(), usize::MAX as int) {
                    }
                }
            }
            return Err(e);
        },
    };
    store_i32_at(&mut w.bytes, place.pos, d);
    store_u32_at(&mut w.bytes, place.pos + 4, n as u32);
    proof {
        let dd = rpos as int - place.pos as int;
        assert(d == dd as i32);
        assert(w.bytes@ =~= spec_strvec_ser(ss, Seq::empty()).0);
    }
    Ok((w.bytes, place.pos))
}

/// The serialization protocol for vectors of strings is correct: the
/// buffer that `spec_strvec_ser` builds is well-formed at its root and
/// decodes, element for element, to the payloads it came from — round-trip
/// identity and validator completeness in one statement.
#[verifier::rlimit(100)]
#[verifier::spinoff_prover]
pub proof fn lemma_strvec_ser_correct(ss: Seq<Seq<u8>>, limit: int)
    requires
        forall|i: int| 0 <= i < ss.len() ==> spec_is_utf8(#[trigger] ss[i]),
        spec_strvec_ser_ok(ss, Seq::empty(), limit),
    ensures
        ({
            let (b2, root) = spec_strvec_ser(ss, Seq::empty());
            &&& strvec_wf_at(b2, root)
            &&& spec_strvec_at(b2, root) == ss
        }),
{
    lemma_auto_spec_u32_to_from_le_bytes();
    let n = ss.len() as int;
    let total = lens_sum(ss, n);
    lemma_lens_sum_mono(ss, 0, n);
    lemma_align_up(total, STRVEC_ALIGN as int);
    let rpos = spec_align_up(total, STRVEC_ALIGN as int);
    let root = rpos + 8 * n;
    lemma_region_aligned(rpos, n);
    lemma_cat_lens(ss, 0, rpos, n);
    let (b2, root2) = spec_strvec_ser(ss, Seq::empty());
    let rd = (rpos - root) as i32;
    crate::codec::lemma_i32_le_bytes_roundtrip(rd);
    assert(rd as int == rpos - root);
    assert(b2.len() == root + 8);
    assert(b2.subrange(root, root + 4) =~= spec_i32_to_le_bytes(rd));
    assert(b2.subrange(root + 4, root + 8) =~= spec_u32_to_le_bytes(ss.len() as u32));
    assert(desc_q(b2, root) == rpos);
    assert(desc_n(b2, root) == n);
    assert forall|i: int| 0 <= i < n implies str_wf_at(b2, #[trigger] (rpos + 8 * i)) && desc_q(
        b2,
        rpos + 8 * i,
    ) == lens_sum(ss, i) && desc_n(b2, rpos + 8 * i) == ss[i].len() && spec_str_at(
        b2,
        rpos + 8 * i,
    ) == ss[i] by {
        lemma_region_aligned(rpos, i);
        lemma_lens_sum_mono(ss, 0, i);
        lemma_lens_sum_mono(ss, i + 1, n);
        lemma_cat_descs_extract(ss, 0, rpos, n, i);
        let di = ((lens_sum(ss, i)) - (rpos + 8 * i)) as i32;
        crate::codec::lemma_i32_le_bytes_roundtrip(di);
        assert(offset_fits(rpos + 8 * i, lens_sum(ss, i)));
        assert(di as int == lens_sum(ss, i) - (rpos + 8 * i));
        assert(b2.subrange(rpos + 8 * i, rpos + 8 * i + 4) =~= cat_descs(
            ss,
            0,
            rpos,
            n,
        ).subrange(8 * i, 8 * i + 4));
        assert(b2.subrange(rpos + 8 * i + 4, rpos + 8 * i + 8) =~= cat_descs(
            ss,
            0,
            rpos,
            n,
        ).subrange(8 * i + 4, 8 * i + 8));
        assert(desc_q(b2, rpos + 8 * i) == lens_sum(ss, i));
        assert(desc_n(b2, rpos + 8 * i) == ss[i].len());
        lemma_cat_payloads_extract(ss, n, i);
        assert(b2.subrange(lens_sum(ss, i), lens_sum(ss, i + 1)) =~= cat_payloads(
            ss,
            n,
        ).subrange(lens_sum(ss, i), lens_sum(ss, i + 1)));
        assert(spec_str_at(b2, rpos + 8 * i) == ss[i]);
    }
    assert forall|i: int| 0 <= i < n - 1 implies desc_q(b2, rpos + 8 * i) + desc_n(
        b2,
        #[trigger] (rpos + 8 * i),
    ) <= desc_q(b2, rpos + 8 * (i + 1)) by {
        lemma_lens_sum_mono(ss, i, i + 1);
    }
    assert forall|i: int| 0 <= i < n implies desc_q(b2, rpos + 8 * i) + desc_n(
        b2,
        #[trigger] (rpos + 8 * i),
    ) <= rpos by {
        lemma_lens_sum_mono(ss, i + 1, n);
    }
    assert(strvec_wf_at(b2, root));
    assert(spec_strvec_at(b2, root) =~= ss);
}

/// The element count of the archived vector at `pos`.
pub fn strvec_len(buf: &Vec<u8>, pos: usize) -> (r: usize)
    requires
        strvec_wf_at(buf@, pos as int),
    ensures
        r == spec_strvec_at(buf@, pos as int).len(),
{
    let blen = buf.len();
    let n = load_u32_at(buf, pos + 4);
    n as usize
}

/// The position of element `i`'s descriptor within the region.
pub fn strvec_elem_pos(buf: &Vec<u8>, pos: usize, i: usize) -> (r: usize)
    requires
        strvec_wf_at(buf@, pos as int),
        i < spec_strvec_at(buf@, pos as int).len(),
    ensures
        r == desc_q(buf@, pos as int) + 8 * i,
        str_wf_at(buf@, r as int),
        spec_str_at(buf@, r as int) == spec_strvec_at(buf@, pos as int)[i as int],
{
    let blen = buf.len();
    let d = load_i32_at(buf, pos);
    let r = match apply_offset(pos, d) {
        Ok(q) => q,
        Err(_) => {
            proof {
                assert(false);
            }
            0
        },
    };
    r + 8 * i
}

/// Checks the archived vector at `pos`: the root first, then the region,
/// then each element in order, stopping at the first fault — an element's
/// own faults, a payload that reaches into the descriptors or into a
/// neighbour (`OverlapError`), or ill-formed UTF-8 at its position.
#[verifier::rlimit(100)]
#[verifier::spinoff_prover]
pub fn validate_strvec(buf: &Vec<u8>, pos: usize) -> (r: Result<(), Error>)
    ensures
        r is Ok <==> strvec_wf_at(buf@, pos as int),
        pos + STRVEC_SIZE > buf@.len() ==> r == Result::<(), Error>::Err(Error::OutOfBounds),
{
    let len = buf.len();
    if len < STRVEC_SIZE || pos > len - STRVEC_SIZE {
        return Err(Error::OutOfBounds);
    }
    if pos % STRVEC_ALIGN != 0 {
        return Err(Error::Unaligned);
    }
    let d = load_i32_at(buf, pos);
    let n_raw = load_u32_at(buf, pos + 4);
    let n = n_raw as usize;
    let region = match apply_offset(pos, d) {
        Ok(q) => q,
        Err(_) => {
            return Err(Error::OutOfBounds);
        },
    };
    if region > pos {
        return Err(Error::OverlapError);
    }
    if region % STRVEC_ALIGN != 0 {
        return Err(Error::Unaligned);
    }
    if n > (pos - region) / 8 {
        return Err(Error::OutOfBounds);
    }
    let mut i: usize = 0;
    while i < n
        invariant
            len == buf@.len(),
            pos + STRVEC_SIZE <= buf@.len(),
            region + 8 * n <= pos,
            region as int == desc_q(buf@, pos as int),
            n as int == desc_n(buf@, pos as int),
            i <= n,
            forall|k: int| 0 <= k < i ==> str_wf_at(buf@, #[trigger] (region + 8 * k)),
            forall|k: int|
                0 <= k < i ==> desc_q(buf@, region + 8 * k) + desc_n(
                    buf@,
                    #[trigger] (region + 8 * k),
                ) <= region,
            forall|k: int|
                0 <= k < i - 1 ==> desc_q(buf@, region + 8 * k) + desc_n(
                    buf@,
                    #[trigger] (region + 8 * k),
                ) <= desc_q(buf@, region + 8 * (k + 1)),
        decreases n - i,
    {
        let dpos = region + 8 * i;
        match validate_str(buf, dpos) {
            Ok(_) => (),
            Err(e) => {
                return Err(e);
            },
        }
        let ed = load_i32_at(buf, dpos);
        let en = load_u32_at(buf, dpos + 4);
        let eq = match apply_offset(dpos, ed) {
            Ok(q) => q,
            Err(_) => {
                proof {
                    assert(false);
                }
                return Err(Error::OutOfBounds);
            },
        };
        if (en as usize) > region || eq > region - (en as usize) {
            return Err(Error::OverlapError);
        }
        if i > 0 {
            let ppos = region + 8 * (i - 1);
            let pd = load_i32_at(buf, ppos);
            let pn = load_u32_at(buf, ppos + 4);
            let pq = match apply_offset(ppos, pd) {
                Ok(q) => q,
                Err(_) => {
                    proof {
                        assert(false);
                    }
                    return Err(Error::OutOfBounds);
                },
            };
            if pq + (pn as usize) > eq {
                return Err(Error::OverlapError);
            }
        }
        i += 1;
    }
    Ok(())
}

/// Reconstructs the owned vector archived at `pos`, element by element.
pub fn deserialize_strvec(buf: &Vec<u8>, pos: usize) -> (r: Vec<Utf8String>)
    requires
        strvec_wf_at(buf@, pos as int),
    ensures
        strvec_views(r@) == spec_strvec_at(buf@, pos as int),
        forall|i: int| 0 <= i < r@.len() ==> (#[trigger] r@[i]).wf(),
{
    let n = strvec_len(buf, pos);
    let mut out: Vec<Utf8String> = Vec::new();
    let mut i: usize = 0;
    while i < n
        invariant
            strvec_wf_at(buf@, pos as int),
            n == spec_strvec_at(buf@, pos as int).len(),
            i <= n,
            out@.len() == i,
            forall|k: int|
                0 <= k < i ==> (#[trigger] out@[k]).bytes@ == spec_strvec_at(buf@, pos as int)[k],
            forall|k: int| 0 <= k < i ==> (#[trigger] out@[k]).wf(),
        decreases n - i,
    {
        let dpos = strvec_elem_pos(buf, pos, i);
        let s = deserialize_str(buf, dpos);
        out.push(s);
        i += 1;
    }
    proof {
        assert(strvec_views(out@) =~= spec_strvec_at(buf@, pos as int));
    }
    out
}

/// Validator soundness for vectors of strings: on a well-formed root every
/// pointer chase lands aligned and in bounds — the region before the root,
/// each element's descriptor inside the region, and each payload before
/// the region.
pub proof fn lemma_strvec_access_sound(b: Seq<u8>, pos: int, i: int)
    requires
        strvec_wf_at(b, pos),
        0 <= i < desc_n(b, pos),
    ensures
        0 <= pos && pos + STRVEC_SIZE <= b.len(),
        pos % (STRVEC_ALIGN as int) == 0,
        ({
            let r = desc_q(b, pos);
            &&& 0 <= r && r + 8 * desc_n(b, pos) <= pos
            &&& r % (STRVEC_ALIGN as int) == 0
            &&& str_wf_at(b, r + 8 * i)
            &&& 0 <= desc_q(b, r + 8 * i)
            &&& desc_q(b, r + 8 * i) + desc_n(b, r + 8 * i) <= r
        }),
{
}

/// Upper-cases the payload of element `i` in place. The payloads are
/// disjoint and sit below the descriptors, so every other element — and
/// the vector's structure — keeps its bytes.
pub fn uppercase_strvec_elem(buf: &mut Vec<u8>, pos: usize, i: usize)
    requires
        strvec_wf_at(old(buf)@, pos as int),
        i < spec_strvec_at(old(buf)@, pos as int).len(),
    ensures
        final(buf)@.len() == old(buf)@.len(),
        strvec_wf_at(final(buf)@, pos as int),
        spec_strvec_at(final(buf)@, pos as int).len() == spec_strvec_at(
            old(buf)@,
            pos as int,
        ).len(),
        spec_strvec_at(final(buf)@, pos as int)[i as int] == spec_upper_seq(
            spec_strvec_at(old(buf)@, pos as int)[i as int],
        ),
        forall|j: int|
            0 <= j < spec_strvec_at(old(buf)@, pos as int).len() && j != i ==> spec_strvec_at(
                final(buf)@,
                pos as int,
            )[j] == spec_strvec_at(old(buf)@, pos as int)[j],
{
    let ghost b0 = old(buf)@;
    let ghost r = desc_q(b0, pos as int);
    let ghost n = desc_n(b0, pos as int);
    let dpos = strvec_elem_pos(buf, pos, i);
    let ghost eq = desc_q(b0, dpos as int);
    let ghost en = desc_n(b0, dpos as int);
    uppercase_str_in_place(buf, dpos);
    proof {
        let b1 = buf@;
        assert forall|x: int| 0 <= x < b0.len() && !(eq <= x < eq + en) implies b1[x] == b0[x] by {}
        assert(b1.subrange(pos as int, pos + 8) =~= b0.subrange(pos as int, pos + 8));
        assert(b1.subrange(pos as int, pos + 4) =~= b0.subrange(pos as int, pos + 4));
        assert(b1.subrange(pos + 4, pos + 8) =~= b0.subrange(pos + 4, pos + 8));
        assert(desc_q(b1, pos as int) == r && desc_n(b1, pos as int) == n);
        assert forall|k: int| 0 <= k < n implies b1.subrange(#[trigger] (r + 8 * k), r + 8 * k + 8)
            =~= b0.subrange(r + 8 * k, r + 8 * k + 8) by {
            assert(eq + en <= r);
        }
        assert forall|k: int| 0 <= k < n implies desc_q(b1, r + 8 * k) == desc_q(b0, r + 8 * k)
            && desc_n(b1, #[trigger] (r + 8 * k)) == desc_n(b0, r + 8 * k) by {
            assert(b1.subrange(r + 8 * k, r + 8 * k + 4) =~= b0.subrange(
                r + 8 * k,
                r + 8 * k + 4,
            ));
            assert(b1.subrange(r + 8 * k + 4, r + 8 * k + 8) =~= b0.subrange(
                r + 8 * k + 4,
                r + 8 * k + 8,
            ));
        }
        assert forall|k: int| 0 <= k < n && k != i implies spec_str_at(b1, #[trigger] (r + 8 * k))
            == spec_str_at(b0, r + 8 * k) && str_wf_at(b1, r + 8 * k) by {
            let kq = desc_q(b0, r + 8 * k);
            let kn = desc_n(b0, r + 8 * k);
            if k < i {
                lemma_strvec_payloads_disjoint(b0, r, k, i as int);
            } else {
                lemma_strvec_payloads_disjoint(b0, r, i as int, k);
            }
            assert(b1.subrange(kq, kq + kn) =~= b0.subrange(kq, kq + kn));
        }
        assert(str_wf_at(b1, r + 8 * i));
        assert(spec_strvec_at(b1, pos as int).len() == n);
        assert forall|j: int| 0 <= j < n && j != i implies spec_strvec_at(b1, pos as int)[j]
            == spec_strvec_at(b0, pos as int)[j] by {}
    }
}

} // verus!
