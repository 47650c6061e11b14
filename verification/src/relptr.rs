//! Relative pointers: signed 32-bit offsets from the pointer's own position
//! to its pointee.
//!
//! Construction from a pair of positions fails with `OffsetOverflow` exactly
//! when the difference does not fit the configured 32-bit width — the
//! produced prefix is then discarded by the caller. Dereferencing adds the
//! offset back; whether the target is in bounds and aligned is the
//! validator's concern.

use crate::error::Error;
use vstd::prelude::*;

verus! {

/// The stored size of a relative pointer in this configuration.
pub const PTR_SIZE: usize = 4;

/// The stored alignment of a relative pointer.
pub const PTR_ALIGN: usize = 4;

/// Whether the offset from `from` to `to` fits the configured width.
pub open spec fn offset_fits(from: int, to: int) -> bool {
    i32::MIN <= to - from <= i32::MAX
}

/// Computes the relative offset `to - from`. Overflow rejection: the result
/// is `OffsetOverflow` exactly when the offset does not fit 32 signed bits.
pub fn rel_offset(from: usize, to: usize) -> (r: Result<i32, Error>)
    ensures
        r is Ok <==> offset_fits(from as int, to as int),
        r matches Ok(d) ==> d == to - from,
        r is Err ==> r == Result::<i32, Error>::Err(Error::OffsetOverflow),
{
    let wide: i128 = to as i128 - from as i128;
    if wide < i32::MIN as i128 || wide > i32::MAX as i128 {
        return Err(Error::OffsetOverflow);
    }
    Ok(wide as i32)
}

/// Applies a relative offset to the position it is stored at, yielding the
/// target position. Fails with `OutOfBounds` exactly when the target would
/// fall before the buffer's start or past what a position can address.
pub fn apply_offset(pos: usize, d: i32) -> (r: Result<usize, Error>)
    ensures
        r is Ok <==> 0 <= pos + d <= usize::MAX,
        r matches Ok(t) ==> t == pos + d,
        r is Err ==> r == Result::<usize, Error>::Err(Error::OutOfBounds),
{
    let wide: i128 = pos as i128 + d as i128;
    if wide < 0 || wide > usize::MAX as i128 {
        return Err(Error::OutOfBounds);
    }
    Ok(wide as usize)
}

} // verus!
