//! Scratch space: a stack of temporary buffers for children of unknown
//! length.
//!
//! Scratch frames may live across the suspension of a serialization frame,
//! but they are strictly LIFO: the frame released must be the one acquired
//! last, and releasing in any other order is a programmer error reported as
//! `ScratchLeak`. A writer without a scratch allocator makes types that
//! need one fail with `ScratchUnsupported`.

use crate::codec::spec_zeros;
use crate::error::Error;
use vstd::prelude::*;

verus! {

/// A LIFO allocator of temporary byte buffers.
pub struct Scratch {
    /// The live frames, oldest first.
    pub frames: Vec<Vec<u8>>,
}

impl Scratch {
    /// An empty scratch space.
    pub fn new() -> (s: Scratch)
        ensures
            s.frames@.len() == 0,
    {
        Scratch { frames: Vec::new() }
    }

    /// The number of live frames.
    pub fn depth(&self) -> (r: usize)
        ensures
            r == self.frames@.len(),
    {
        self.frames.len()
    }

    /// Acquires a fresh zero-filled frame of `size` bytes on top of the
    /// stack and returns its token: its depth at acquisition.
    pub fn acquire(&mut self, size: usize) -> (t: usize)
        ensures
            t == old(self).frames@.len(),
            final(self).frames@.len() == old(self).frames@.len() + 1,
            final(self).frames@.subrange(0, t as int) == old(self).frames@,
            final(self).frames@[t as int]@ == spec_zeros(size as int),
    {
        let t = self.frames.len();
        let ghost orig = self.frames@;
        let mut frame: Vec<u8> = Vec::new();
        let mut k: usize = 0;
        while k < size
            invariant
                k <= size,
                frame@ =~= spec_zeros(k as int),
            decreases size - k,
        {
            frame.push(0u8);
            proof {
                assert(frame@ =~= spec_zeros(k + 1));
            }
            k += 1;
        }
        self.frames.push(frame);
        proof {
            assert(self.frames@.subrange(0, t as int) =~= orig);
        }
        t
    }

    /// Releases the frame named by `t` and hands its bytes back. Frames are
    /// released in reverse order of acquisition: releasing anything but the
    /// top frame — or releasing into an empty stack — is a `ScratchLeak`,
    /// and changes nothing.
    pub fn release(&mut self, t: usize) -> (r: Result<Vec<u8>, Error>)
        ensures
            r is Ok <==> old(self).frames@.len() > 0 && t == old(self).frames@.len() - 1,
            r matches Ok(v) ==> v@ == old(self).frames@[t as int]@ && final(self).frames@ == old(
                self,
            ).frames@.subrange(0, t as int),
            r is Err ==> r == Result::<Vec<u8>, Error>::Err(Error::ScratchLeak) && *final(self)
                == *old(self),
    {
        let n = self.frames.len();
        if n == 0 || t != n - 1 {
            return Err(Error::ScratchLeak);
        }
        match self.frames.pop() {
            Some(frame) => {
                proof {
                    assert(self.frames@ =~= old(self).frames@.subrange(0, t as int));
                }
                Ok(frame)
            },
            None => {
                proof {
                    assert(false);
                }
                Err(Error::ScratchLeak)
            },
        }
    }
}

/// Hands the scratch space out to a type that needs one, or reports
/// `ScratchUnsupported` exactly when the writer was built without one.
pub fn require_scratch(s: Option<&mut Scratch>) -> (r: Result<&mut Scratch, Error>)
    ensures
        r is Ok <==> s is Some,
        r is Err ==> r == Result::<&mut Scratch, Error>::Err(Error::ScratchUnsupported),
{
    match s {
        Some(scratch) => Ok(scratch),
        None => Err(Error::ScratchUnsupported),
    }
}

} // verus!
