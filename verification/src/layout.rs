//! Positions, alignment, and the layout of product types.
//!
//! Every archived value sits at a position that is a multiple of its
//! alignment. `spec_align_up` is the single rounding rule used by the writer
//! and by every layout computation, and `struct_layout` computes the field
//! offsets, size and alignment of a product type from its fields' sizes and
//! alignments alone.

use vstd::arithmetic::div_mod::lemma_fundamental_div_mod;
use vstd::arithmetic::div_mod::lemma_fundamental_div_mod_converse;
use vstd::arithmetic::div_mod::lemma_mod_bound;
use vstd::prelude::*;

verus! {

/// The alignments this configuration supports.
pub open spec fn is_alignment(a: usize) -> bool {
    a == 1 || a == 2 || a == 4 || a == 8
}

/// The least multiple of `a` that is at least `n`.
pub open spec fn spec_align_up(n: int, a: int) -> int {
    if n % a == 0 {
        n
    } else {
        n + a - n % a
    }
}

/// Alignment law: rounding a position up to an alignment yields a multiple of
/// that alignment, moves the position forward by less than the alignment, and
/// leaves an already-aligned position where it is.
pub proof fn lemma_align_up(n: int, a: int)
    requires
        0 <= n,
        1 <= a,
    ensures
        spec_align_up(n, a) % a == 0,
        n <= spec_align_up(n, a) < n + a,
        n % a == 0 ==> spec_align_up(n, a) == n,
{
    let r = n % a;
    lemma_fundamental_div_mod(n, a);
    lemma_mod_bound(n, a);
    if r != 0 {
        let q = n / a;
        assert(n + a - r == a * (q + 1)) by {
            assert(n == a * q + r);
            assert(a * (q + 1) == a * q + a) by (nonlinear_arith);
            assert(q * a == a * q) by (nonlinear_arith);
        }
        assert((a * (q + 1)) % a == 0) by {
            lemma_fundamental_div_mod_converse(a * (q + 1), a, q + 1, 0);
        }
    }
}

/// Rounds `n` up to the next multiple of `a`.
pub fn align_up(n: usize, a: usize) -> (r: usize)
    requires
        is_alignment(a),
        n + a <= usize::MAX,
    ensures
        r == spec_align_up(n as int, a as int),
        r % a == 0,
        n <= r < n + a,
{
    proof {
        lemma_align_up(n as int, a as int);
    }
    let rem = n % a;
    if rem == 0 {
        n
    } else {
        n + (a - rem)
    }
}

/// One field of a product layout: the size and alignment of its archived form.
#[derive(Clone, Copy, Debug, PartialEq, Eq, Structural)]
pub struct FieldDims {
    pub size: usize,
    pub align: usize,
}

/// The computed layout of a product type.
#[derive(Debug)]
pub struct StructLayout {
    /// Offset of each field, in declaration order.
    pub offsets: Vec<usize>,
    /// Total size, padded to a multiple of the alignment.
    pub size: usize,
    /// Alignment of the whole product.
    pub align: usize,
}

/// Every field fits the configuration's bounds.
pub open spec fn fields_ok(fields: Seq<FieldDims>) -> bool {
    &&& fields.len() <= 0x1000
    &&& forall|k: int|
        0 <= k < fields.len() ==> (#[trigger] fields[k]).size <= 0x10000 && is_alignment(
            fields[k].align,
        )
}

/// The end of the bytes of the first `k` fields, each placed at the lowest
/// aligned position after its predecessor.
pub open spec fn spec_end_after(fields: Seq<FieldDims>, k: int) -> int
    decreases k,
{
    if k <= 0 {
        0
    } else {
        spec_align_up(spec_end_after(fields, k - 1), fields[k - 1].align as int)
            + fields[k - 1].size
    }
}

/// The offset of field `k`.
pub open spec fn spec_field_offset(fields: Seq<FieldDims>, k: int) -> int {
    spec_align_up(spec_end_after(fields, k), fields[k].align as int)
}

/// The alignment of the product: the largest field alignment, at least `1`.
pub open spec fn spec_struct_align(fields: Seq<FieldDims>, k: int) -> int
    decreases k,
{
    if k <= 0 {
        1
    } else {
        let rest = spec_struct_align(fields, k - 1);
        if fields[k - 1].align as int > rest {
            fields[k - 1].align as int
        } else {
            rest
        }
    }
}

/// The end position after `k` fields stays within `k` times the worst case of
/// one field.
pub proof fn lemma_end_after_bound(fields: Seq<FieldDims>, k: int)
    requires
        fields_ok(fields),
        0 <= k <= fields.len(),
    ensures
        0 <= spec_end_after(fields, k) <= k * 0x10008,
    decreases k,
{
    if k > 0 {
        lemma_end_after_bound(fields, k - 1);
        lemma_align_up(spec_end_after(fields, k - 1), fields[k - 1].align as int);
        assert((k - 1) * 0x10008 + 0x10008 == k * 0x10008) by (nonlinear_arith);
    }
}

/// Computes the layout of a product type from its fields, in declaration
/// order: each field is placed at the lowest correctly-aligned position after
/// the one before it, and the size is padded so the product can be repeated
/// in a contiguous sequence. `min_align` raises the alignment of the whole
/// product (`1` asks for nothing).
pub fn struct_layout(fields: &Vec<FieldDims>, min_align: usize) -> (r: StructLayout)
    requires
        fields_ok(fields@),
        is_alignment(min_align),
    ensures
        r.offsets@.len() == fields@.len(),
        forall|k: int| 0 <= k < fields@.len() ==> r.offsets@[k] == spec_field_offset(fields@, k),
        forall|k: int|
            0 <= k < fields@.len() ==> #[trigger] (r.offsets@[k] as int) % (
            fields@[k].align as int) == 0,
        r.align as int == if min_align as int > spec_struct_align(fields@, fields@.len() as int) {
            min_align as int
        } else {
            spec_struct_align(fields@, fields@.len() as int)
        },
        r.size == spec_align_up(spec_end_after(fields@, fields@.len() as int), r.align as int),
        r.size % r.align == 0,
{
    let n = fields.len();
    let mut offsets: Vec<usize> = Vec::new();
    let mut end: usize = 0;
    let mut align: usize = 1;
    let mut k: usize = 0;
    while k < n
        invariant
            fields_ok(fields@),
            n == fields@.len(),
            k <= n,
            offsets@.len() == k,
            end == spec_end_after(fields@, k as int),
            align == spec_struct_align(fields@, k as int),
            is_alignment(align),
            forall|j: int| 0 <= j < k ==> offsets@[j] == spec_field_offset(fields@, j),
            forall|j: int|
                0 <= j < k ==> #[trigger] (offsets@[j] as int) % (fields@[j].align as int) == 0,
        decreases n - k,
    {
        let f = fields[k];
        proof {
            lemma_end_after_bound(fields@, k as int);
            vstd::arithmetic::mul::lemma_mul_inequality(k as int, 0x1000, 0x10008);
        }
        let off = align_up(end, f.align);
        offsets.push(off);
        end = off + f.size;
        if f.align > align {
            align = f.align;
        }
        k += 1;
    }
    proof {
        lemma_end_after_bound(fields@, n as int);
        vstd::arithmetic::mul::lemma_mul_inequality(n as int, 0x1000, 0x10008);
    }
    let final_align = if min_align > align {
        min_align
    } else {
        align
    };
    let size = align_up(end, final_align);
    StructLayout { offsets, size, align: final_align }
}

/// Alignment law for products: every field offset that `struct_layout`
/// computes is a multiple of that field's alignment.
pub proof fn lemma_struct_field_alignment(fields: Seq<FieldDims>, k: int)
    requires
        fields_ok(fields),
        0 <= k < fields.len(),
    ensures
        spec_field_offset(fields, k) % (fields[k].align as int) == 0,
{
    lemma_end_after_bound(fields, k);
    lemma_align_up(spec_end_after(fields, k), fields[k].align as int);
}

} // verus!
