//! The shared-pointer registry: at-most-once serialization per identity.
//!
//! A shared value is keyed by its identity — in the source program, the
//! address of the shared payload; here, a plain identifier that stands for
//! it. The registry maps each identity seen so far to the position its
//! payload was archived at. On a repeated identity nothing is re-emitted:
//! the existing position is handed out again, so archived pointers to one
//! identity all lead to one payload, and positions serve as the archived
//! notion of pointer identity.

use crate::codec::{lemma_i32_le_bytes_roundtrip, store_i32_at};
use crate::error::Error;
use crate::primitive::spec_i32_at;
use crate::writer::Writer;
use vstd::prelude::*;

verus! {

/// One strong shared handle to serialize: the payload's identity and the
/// payload itself.
#[derive(Clone, Copy, Debug, PartialEq, Eq, Structural)]
pub struct SharedItem {
    /// Stands for the address of the shared payload: equal identities mean
    /// one object.
    pub id: u64,
    /// The shared payload.
    pub value: i32,
}

/// Equal identities carry equal payloads: one object has one value.
pub open spec fn shared_consistent(items: Seq<SharedItem>) -> bool {
    forall|i: int, j: int|
        0 <= i < items.len() && 0 <= j < items.len() && (#[trigger] items[i]).id == (
        #[trigger] items[j]).id ==> items[i].value == items[j].value
}

/// Looks an identity up in the registry: the position recorded for it, if
/// any entry carries it.
fn registry_lookup(reg: &Vec<(u64, usize)>, id: u64) -> (r: Option<usize>)
    ensures
        r is Some <==> exists|k: int| 0 <= k < reg@.len() && (#[trigger] reg@[k]).0 == id,
        r matches Some(p) ==> exists|k: int| 0 <= k < reg@.len() && (#[trigger] reg@[k]) == (
        id,
        p,
        ),
{
    let n = reg.len();
    let mut k: usize = 0;
    while k < n
        invariant
            n == reg@.len(),
            k <= n,
            forall|j: int| 0 <= j < k ==> (#[trigger] reg@[j]).0 != id,
        decreases n - k,
    {
        let entry = reg[k];
        if entry.0 == id {
            return Some(entry.1);
        }
        k += 1;
    }
    None
}

/// Every handled item has a registry entry pairing its identity with the
/// position it was given; `ridx` names each item's entry.
pub open spec fn ptrs_registered(
    items: Seq<SharedItem>,
    reg: Seq<(u64, usize)>,
    ptrs: Seq<usize>,
    ridx: Seq<int>,
    t: int,
) -> bool {
    forall|i: int|
        #![trigger ridx[i]]
        0 <= i < t ==> 0 <= ridx[i] < reg.len() && reg[ridx[i]].0 == items[i].id
            && reg[ridx[i]].1 == ptrs[i]
}

/// Registration survives one more handled item: the registry may have
/// grown by entries at the end, earlier positions and entries are
/// unchanged, and the new item has its entry.
pub proof fn lemma_ptrs_registered_step(
    items: Seq<SharedItem>,
    reg0: Seq<(u64, usize)>,
    reg: Seq<(u64, usize)>,
    ptrs0: Seq<usize>,
    ptrs: Seq<usize>,
    ridx0: Seq<int>,
    ridx: Seq<int>,
    t: int,
)
    requires
        0 <= t < items.len(),
        ptrs_registered(items, reg0, ptrs0, ridx0, t),
        ptrs0.len() == t,
        ridx0.len() == t,
        ptrs.len() == t + 1,
        ridx.len() == t + 1,
        reg.len() >= reg0.len(),
        forall|j: int| 0 <= j < reg0.len() ==> #[trigger] reg[j] == reg0[j],
        forall|j: int| 0 <= j < t ==> #[trigger] ptrs[j] == ptrs0[j],
        forall|j: int| 0 <= j < t ==> #[trigger] ridx[j] == ridx0[j],
        0 <= ridx[t] < reg.len(),
        reg[ridx[t]] == (items[t].id, ptrs[t]),
    ensures
        ptrs_registered(items, reg, ptrs, ridx, t + 1),
{
    assert forall|i: int| #![trigger ridx[i]] 0 <= i < t + 1 implies 0 <= ridx[i]
        < reg.len() && reg[ridx[i]] == (items[i].id, ptrs[i]) by {
        if i < t {
            assert(ptrs0[i] == ptrs[i]);
            assert(0 <= ridx0[i] < reg0.len() && reg0[ridx0[i]] == (items[i].id, ptrs0[i]));
        }
    }
}

/// Every registry entry records some item's identity, and its position
/// decodes to that item's payload.
pub open spec fn reg_values_ok(items: Seq<SharedItem>, reg: Seq<(u64, usize)>, b: Seq<u8>) -> bool {
    forall|k: int|
        0 <= k < reg.len() ==> exists|m: int|
            0 <= m < items.len() && (#[trigger] reg[k]).0 == (#[trigger] items[m]).id
                && spec_i32_at(b, reg[k].1 as int) == items[m].value
}

/// Serializes a sequence of shared handles, writing each distinct
/// identity's payload exactly once, and returns the archived position each
/// handle points at. Sharing is preserved both ways: two handles receive
/// the same position exactly when they had the same identity — so handles
/// to one object stay one object, and distinct objects stay distinct.
#[verifier::rlimit(80)]
pub fn serialize_shared(items: &Vec<SharedItem>, w: &mut Writer) -> (r: Result<Vec<usize>, Error>)
    requires
        old(w).wf(),
        shared_consistent(items@),
    ensures
        final(w).wf(),
        final(w).limit == old(w).limit,
        final(w).bytes@.len() >= old(w).bytes@.len(),
        r matches Ok(ptrs) ==> {
            &&& ptrs@.len() == items@.len()
            &&& forall|i: int, j: int|
                0 <= i < items@.len() && 0 <= j < items@.len() ==> ((#[trigger] items@[i]).id == (
                #[trigger] items@[j]).id <==> ptrs@[i] == ptrs@[j])
            &&& forall|i: int|
                0 <= i < items@.len() ==> (#[trigger] ptrs@[i]) + 4 <= final(w).bytes@.len()
                    && ptrs@[i] as int % 4 == 0 && spec_i32_at(final(w).bytes@, ptrs@[i] as int)
                    == items@[i].value
        },
        r matches Err(e) ==> e == Error::OutOfSpace,
        old(w).bytes@.len() + 4 * items@.len() + 3 <= old(w).limit ==> r is Ok,
{
    let n = items.len();
    let mut reg: Vec<(u64, usize)> = Vec::new();
    let mut ptrs: Vec<usize> = Vec::new();
    let ghost mut ridx: Seq<int> = Seq::empty();
    let mut t: usize = 0;
    while t < n
        invariant
            w.wf(),
            w.limit == old(w).limit,
            w.bytes@.len() >= old(w).bytes@.len(),
            n == items@.len(),
            shared_consistent(items@),
            t <= n,
            ptrs@.len() == t,
            ridx.len() == t,
            w.bytes@.len() == old(w).bytes@.len() || (w.bytes@.len() as int % 4 == 0
                && w.bytes@.len() <= crate::layout::spec_align_up(old(w).bytes@.len() as int, 4)
                + 4 * t),
            forall|k: int, l: int|
                0 <= k < reg@.len() && 0 <= l < reg@.len() && k != l ==> (#[trigger] reg@[k]).0 != (
                #[trigger] reg@[l]).0 && reg@[k].1 != reg@[l].1,
            forall|k: int|
                0 <= k < reg@.len() ==> (#[trigger] reg@[k]).1 + 4 <= w.bytes@.len()
                    && reg@[k].1 as int % 4 == 0,
            reg_values_ok(items@, reg@, w.bytes@),
            ptrs_registered(items@, reg@, ptrs@, ridx, t as int),
        decreases n - t,
    {
        let item = items[t];
        let ghost reg0 = reg@;
        let ghost ptrs0 = ptrs@;
        let ghost ridx0 = ridx;
        let found = registry_lookup(&reg, item.id);
        match found {
            Some(p) => {
                ptrs.push(p);
                proof {
                    let k0 = choose|k: int|
                        0 <= k < reg0.len() && (#[trigger] reg0[k]) == (item.id, p);
                    ridx = ridx.push(k0);
                    assert(reg@[k0] == (items@[t as int].id, ptrs@[t as int]));
                    lemma_ptrs_registered_step(
                        items@,
                        reg0,
                        reg@,
                        ptrs0,
                        ptrs@,
                        ridx0,
                        ridx,
                        t as int,
                    );
                }
            },
            None => {
                let ghost bytes0 = w.bytes@;
                proof {
                    crate::layout::lemma_align_up(w.bytes@.len() as int, 4);
                    crate::layout::lemma_align_up(old(w).bytes@.len() as int, 4);
                }
                let place = match w.reserve(4, 4) {
                    Ok(p) => p,
                    Err(e) => {
                        proof {
                            assert(old(w).bytes@.len() + 4 * items@.len() + 3 > old(w).limit) by {
                                assert(4 * t <= 4 * (items@.len() as int));
                            }
                        }
                        return Err(e);
                    },
                };
                store_i32_at(&mut w.bytes, place.pos, item.value);
                proof {
                    lemma_i32_le_bytes_roundtrip(item.value);
                    assert forall|k: int| 0 <= k < reg@.len() implies spec_i32_at(
                        w.bytes@,
                        (#[trigger] reg@[k]).1 as int,
                    ) == spec_i32_at(bytes0, reg@[k].1 as int) by {
                        assert(w.bytes@.subrange(reg@[k].1 as int, reg@[k].1 + 4)
                            =~= bytes0.subrange(reg@[k].1 as int, reg@[k].1 + 4));
                    }
                    assert(spec_i32_at(w.bytes@, place.pos as int) == item.value);
                }
                reg.push((item.id, place.pos));
                ptrs.push(place.pos);
                proof {
                    ridx = ridx.push(reg@.len() - 1);
                    assert(reg@[reg@.len() - 1] == (items@[t as int].id, ptrs@[t as int]));
                    lemma_ptrs_registered_step(
                        items@,
                        reg0,
                        reg@,
                        ptrs0,
                        ptrs@,
                        ridx0,
                        ridx,
                        t as int,
                    );
                    assert(reg_values_ok(items@, reg@, w.bytes@)) by {
                        assert forall|k: int| 0 <= k < reg@.len() implies exists|m: int|
                            0 <= m < items@.len() && (#[trigger] reg@[k]).0 == (
                            #[trigger] items@[m]).id && spec_i32_at(w.bytes@, reg@[k].1 as int)
                            == items@[m].value by {
                            if k < reg@.len() - 1 {
                                let m0 = choose|m: int|
                                    0 <= m < items@.len() && (reg0[k]).0 == (
                                    #[trigger] items@[m]).id && spec_i32_at(
                                        bytes0,
                                        reg0[k].1 as int,
                                    ) == items@[m].value;
                                assert(items@[m0].id == reg@[k].0 && spec_i32_at(
                                    w.bytes@,
                                    reg@[k].1 as int,
                                ) == items@[m0].value);
                            } else {
                                assert(items@[t as int].id == reg@[k].0 && spec_i32_at(
                                    w.bytes@,
                                    reg@[k].1 as int,
                                ) == items@[t as int].value);
                            }
                        }
                    }
                }
            },
        }
        t += 1;
    }
    proof {
        assert forall|i: int, j: int|
            0 <= i < items@.len() && 0 <= j < items@.len() implies ((#[trigger] items@[i]).id == (
        #[trigger] items@[j]).id <==> ptrs@[i] == ptrs@[j]) by {
            assert(reg@[ridx[i]] == (items@[i].id, ptrs@[i]));
            assert(reg@[ridx[j]] == (items@[j].id, ptrs@[j]));
            if items@[i].id == items@[j].id {
                assert(ridx[i] == ridx[j]);
            }
            if ptrs@[i] == ptrs@[j] {
                assert(ridx[i] == ridx[j]);
            }
        }
        assert forall|i: int| 0 <= i < items@.len() implies (#[trigger] ptrs@[i]) + 4
            <= w.bytes@.len() && ptrs@[i] as int % 4 == 0 && spec_i32_at(
            w.bytes@,
            ptrs@[i] as int,
        ) == items@[i].value by {
            let k = ridx[i];
            assert(reg@[k] == (items@[i].id, ptrs@[i]));
            let m = choose|m: int|
                0 <= m < items@.len() && (#[trigger] reg@[k]).0 == (#[trigger] items@[m]).id
                    && spec_i32_at(w.bytes@, reg@[k].1 as int) == items@[m].value;
            assert(items@[m].id == items@[i].id);
            assert(items@[m].value == items@[i].value);
        }
    }
    Ok(ptrs)
}

/// Sharing preservation, spelled out: under a consistent input, the
/// positions handed back identify objects exactly — payloads live at one
/// position per identity, and reading any handle's position yields that
/// object's value. This is the contract of `serialize_shared`; restating
/// it here keeps the law in one place.
pub proof fn lemma_sharing_preserved(
    items: Seq<SharedItem>,
    ptrs: Seq<usize>,
    b: Seq<u8>,
    i: int,
    j: int,
)
    requires
        0 <= i < items.len(),
        0 <= j < items.len(),
        ptrs.len() == items.len(),
        forall|x: int, y: int|
            0 <= x < items.len() && 0 <= y < items.len() ==> ((#[trigger] items[x]).id == (
            #[trigger] items[y]).id <==> ptrs[x] == ptrs[y]),
        forall|x: int|
            0 <= x < items.len() ==> spec_i32_at(b, (#[trigger] ptrs[x]) as int) == items[x].value,
    ensures
        items[i].id == items[j].id <==> ptrs[i] == ptrs[j],
        spec_i32_at(b, ptrs[i] as int) == items[i].value,
{
}

} // verus!
