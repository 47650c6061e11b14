//! The append-only writer and the places it hands out.
//!
//! A writer only grows: bytes already committed keep their value, and the one
//! way to come back to a position is to fill a place that was reserved there,
//! whose size was fixed at reservation time. A writer may be bounded; a full
//! bounded writer reports `OutOfSpace` and changes nothing.

use crate::error::Error;
use crate::layout::{is_alignment, lemma_align_up, spec_align_up};
use vstd::prelude::*;

verus! {

/// A reserved region of the buffer: `size` bytes at position `pos`, already
/// zero-filled, waiting for an archived value to be written into it.
#[derive(Clone, Copy, Debug, PartialEq, Eq, Structural)]
pub struct Place {
    pub pos: usize,
    pub size: usize,
}

/// An append-only byte sink with a current position and an optional bound.
pub struct Writer {
    /// The bytes committed so far; the current position is their length.
    pub bytes: Vec<u8>,
    /// The writer refuses to grow past this length.
    pub limit: usize,
}

impl Writer {
    /// A writer never grows past its bound.
    pub open spec fn wf(&self) -> bool {
        self.bytes@.len() <= self.limit
    }

    /// An unbounded writer (bounded only by the machine).
    pub fn new() -> (w: Writer)
        ensures
            w.bytes@.len() == 0,
            w.limit == usize::MAX,
            w.wf(),
    {
        Writer { bytes: Vec::new(), limit: usize::MAX }
    }

    /// A writer that refuses to grow past `limit` bytes.
    pub fn bounded(limit: usize) -> (w: Writer)
        ensures
            w.bytes@.len() == 0,
            w.limit == limit,
            w.wf(),
    {
        Writer { bytes: Vec::new(), limit }
    }

    /// The current position: the number of bytes committed so far.
    pub fn pos(&self) -> (r: usize)
        ensures
            r == self.bytes@.len(),
    {
        self.bytes.len()
    }

    /// Appends `src` unchanged. Fails with `OutOfSpace`, changing nothing,
    /// exactly when the result would exceed the bound.
    pub fn write_slice(&mut self, src: &Vec<u8>) -> (r: Result<(), Error>)
        requires
            old(self).wf(),
        ensures
            final(self).wf(),
            r is Ok <==> old(self).bytes@.len() + src@.len() <= old(self).limit,
            r is Ok ==> final(self).bytes@ == old(self).bytes@ + src@,
            r is Err ==> r == Result::<(), Error>::Err(Error::OutOfSpace) && *final(self) == *old(self),
            final(self).limit == old(self).limit,
    {
        if src.len() > self.limit - self.bytes.len() {
            return Err(Error::OutOfSpace);
        }
        self.bytes.extend_from_slice(src.as_slice());
        Ok(())
    }

    /// Appends one byte. Fails with `OutOfSpace`, changing nothing, exactly
    /// when the writer is full.
    pub fn write_byte(&mut self, b: u8) -> (r: Result<(), Error>)
        requires
            old(self).wf(),
        ensures
            final(self).wf(),
            r is Ok <==> old(self).bytes@.len() + 1 <= old(self).limit,
            r is Ok ==> final(self).bytes@ == old(self).bytes@.push(b),
            r is Err ==> r == Result::<(), Error>::Err(Error::OutOfSpace) && *final(self) == *old(self),
            final(self).limit == old(self).limit,
    {
        if self.bytes.len() >= self.limit {
            return Err(Error::OutOfSpace);
        }
        self.bytes.push(b);
        Ok(())
    }

    /// Appends zero bytes until the position is a multiple of `align`.
    /// Fails with `OutOfSpace`, changing nothing, exactly when the aligned
    /// position would exceed the bound.
    pub fn pad_to(&mut self, align: usize) -> (r: Result<(), Error>)
        requires
            old(self).wf(),
            is_alignment(align),
        ensures
            final(self).wf(),
            r is Ok <==> spec_align_up(old(self).bytes@.len() as int, align as int) <= old(self).limit,
            r is Ok ==> {
                &&& final(self).bytes@.len() == spec_align_up(
                    old(self).bytes@.len() as int,
                    align as int,
                )
                &&& final(self).bytes@.subrange(0, old(self).bytes@.len() as int) == old(self).bytes@
                &&& forall|i: int|
                    old(self).bytes@.len() <= i < final(self).bytes@.len() ==> final(self).bytes@[i] == 0u8
                &&& final(self).bytes@.len() as int % (align as int) == 0
            },
            r is Err ==> r == Result::<(), Error>::Err(Error::OutOfSpace) && *final(self) == *old(self),
            final(self).limit == old(self).limit,
    {
        proof {
            lemma_align_up(self.bytes@.len() as int, align as int);
        }
        let rem = self.bytes.len() % align;
        if rem == 0 {
            proof {
                assert(self.bytes@.subrange(0, self.bytes@.len() as int) =~= self.bytes@);
            }
            return Ok(());
        }
        let pad = align - rem;
        if pad > self.limit - self.bytes.len() {
            return Err(Error::OutOfSpace);
        }
        let ghost orig = self.bytes@;
        let mut k: usize = 0;
        while k < pad
            invariant
                k <= pad,
                self.bytes@.len() == orig.len() + k,
                self.bytes@.subrange(0, orig.len() as int) == orig,
                forall|i: int| orig.len() <= i < self.bytes@.len() ==> self.bytes@[i] == 0u8,
                self.limit == old(self).limit,
                orig.len() + pad <= self.limit,
            decreases pad - k,
        {
            self.bytes.push(0u8);
            proof {
                assert(self.bytes@.subrange(0, orig.len() as int) =~= orig);
            }
            k += 1;
        }
        Ok(())
    }

    /// Pads to `align`, then reserves `size` zero bytes and hands back the
    /// place that refers to them. The place's position is aligned: this is
    /// the alignment law for everything the writer ever places. Fails with
    /// `OutOfSpace`, changing nothing, exactly when the reserved region would
    /// end past the bound.
    pub fn reserve(&mut self, size: usize, align: usize) -> (r: Result<Place, Error>)
        requires
            old(self).wf(),
            is_alignment(align),
            size <= 0x1000_0000,
        ensures
            final(self).wf(),
            r is Ok <==> spec_align_up(old(self).bytes@.len() as int, align as int) + size <= old(self).limit,
            r matches Ok(p) ==> {
                &&& p.pos == spec_align_up(old(self).bytes@.len() as int, align as int)
                &&& p.pos as int % (align as int) == 0
                &&& p.size == size
                &&& final(self).bytes@.len() == p.pos + size
                &&& final(self).bytes@.subrange(0, old(self).bytes@.len() as int) == old(self).bytes@
                &&& forall|i: int|
                    old(self).bytes@.len() <= i < final(self).bytes@.len() ==> final(self).bytes@[i] == 0u8
            },
            r is Err ==> r == Result::<Place, Error>::Err(Error::OutOfSpace) && *final(self)
                == *old(self),
            final(self).limit == old(self).limit,
    {
        proof {
            lemma_align_up(self.bytes@.len() as int, align as int);
        }
        let rem = self.bytes.len() % align;
        let pad = if rem == 0 {
            0
        } else {
            align - rem
        };
        if pad > self.limit - self.bytes.len() || size > self.limit - self.bytes.len() - pad {
            return Err(Error::OutOfSpace);
        }
        let ghost orig = self.bytes@;
        let total = pad + size;
        let mut k: usize = 0;
        while k < total
            invariant
                k <= total,
                self.bytes@.len() == orig.len() + k,
                self.bytes@.subrange(0, orig.len() as int) == orig,
                forall|i: int| orig.len() <= i < self.bytes@.len() ==> self.bytes@[i] == 0u8,
                self.limit == old(self).limit,
                orig.len() + total <= self.limit,
            decreases total - k,
        {
            self.bytes.push(0u8);
            proof {
                assert(self.bytes@.subrange(0, orig.len() as int) =~= orig);
            }
            k += 1;
        }
        let pos = self.bytes.len() - size;
        Ok(Place { pos, size })
    }
}

} // verus!
