//! Structured errors for serialization and validation.

use vstd::prelude::*;

verus! {

/// Everything that can go wrong while producing a buffer or while checking
/// one that came from an untrusted source.
///
/// Errors are surfaced, never recovered: the first failure short-circuits the
/// operation, and a partially written buffer must be discarded.
#[derive(Clone, Copy, Debug, PartialEq, Eq, Structural)]
pub enum Error {
    /// A bounded writer ran out of room.
    OutOfSpace,
    /// A relative pointer's required offset does not fit the configured
    /// 32-bit offset width.
    OffsetOverflow,
    /// The validator's recursion exceeded the configured depth limit.
    DepthExceeded,
    /// A byte that should encode a `bool` is neither `0x00` nor `0x01`.
    InvalidBool,
    /// Four bytes that should encode a `char` are not a Unicode scalar value.
    InvalidChar,
    /// A sum type's tag byte is outside the declared set of variants.
    InvalidDiscriminant,
    /// A string payload is not well-formed UTF-8.
    InvalidUtf8,
    /// An archived duration's nanosecond field is not below one billion.
    InvalidDuration,
    /// A position is not a multiple of the required alignment.
    Unaligned,
    /// A range reaches past the end of the buffer.
    OutOfBounds,
    /// A relative pointer targets a position still on the validator's stack.
    CycleDetected,
    /// Two validated subtrees partially overlap.
    OverlapError,
    /// A type that needs scratch space met a writer without a scratch
    /// allocator.
    ScratchUnsupported,
    /// Scratch frames were not released in reverse order of acquisition.
    ScratchLeak,
}

} // verus!
