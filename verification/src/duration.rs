//! Durations and their archived form.
//!
//! A [`Duration`] is archived as twelve bytes: its whole seconds as eight
//! little-endian bytes at offset 0, its sub-second nanoseconds as four
//! little-endian bytes at offset 8. The archived form is plain data: reading
//! a field is one load at a known offset.

use crate::codec::{load_u32_at, load_u64_at, store_u32_at, store_u64_at};
use crate::error::Error;
use crate::writer::{Place, Writer};
use vstd::bytes::*;
use vstd::prelude::*;

verus! {

pub const NANOS_PER_SEC: u32 = 1_000_000_000;

pub const NANOS_PER_MILLI: u32 = 1_000_000;

pub const NANOS_PER_MICRO: u32 = 1_000;

pub const MILLIS_PER_SEC: u64 = 1_000;

pub const MICROS_PER_SEC: u64 = 1_000_000;

/// The archived size of a duration: eight bytes of seconds, four of nanoseconds.
pub const DURATION_SIZE: usize = 12;

/// The archived alignment of a duration in this 32-bit configuration.
pub const DURATION_ALIGN: usize = 4;

/// A span of time: whole seconds and a sub-second nanosecond part.
#[derive(Clone, Copy, Debug, PartialEq, Eq, Structural)]
pub struct Duration {
    pub secs: u64,
    pub nanos: u32,
}

impl Duration {
    /// The nanosecond part never reaches a whole second.
    pub open spec fn wf(&self) -> bool {
        self.nanos < NANOS_PER_SEC
    }

    /// A duration of `secs` whole seconds and `nanos` additional nanoseconds.
    pub fn new(secs: u64, nanos: u32) -> (r: Duration)
        requires
            nanos < NANOS_PER_SEC,
        ensures
            r == (Duration { secs, nanos }),
            r.wf(),
    {
        Duration { secs, nanos }
    }
}

/// An archived [`Duration`].
#[derive(Clone, Copy, Debug, Default, Eq, Hash, Ord, PartialEq, PartialOrd)]
pub struct ArchivedDuration {
    secs: u64,
    nanos: u32,
}

impl ArchivedDuration {
    /// The whole seconds of the archived duration.
    pub closed spec fn spec_secs(&self) -> u64 {
        self.secs
    }

    /// The sub-second nanoseconds of the archived duration.
    pub closed spec fn spec_nanos(&self) -> u32 {
        self.nanos
    }

    /// Returns the number of whole seconds contained by this
    /// `ArchivedDuration`.
    ///
    /// The returned value does not include the fractional (nanosecond) part,
    /// which can be obtained with [`subsec_nanos`](ArchivedDuration::subsec_nanos).
    pub fn as_secs(&self) -> (r: u64)
        ensures
            r == self.spec_secs(),
    {
        self.secs
    }

    /// Returns the fractional part of this `ArchivedDuration`, in whole
    /// milliseconds: always below one thousand.
    pub fn subsec_millis(&self) -> (r: u32)
        ensures
            r == self.spec_nanos() / NANOS_PER_MILLI,
    {
        self.nanos / NANOS_PER_MILLI
    }

    /// Returns the fractional part of this `ArchivedDuration`, in whole
    /// microseconds: always below one million.
    pub fn subsec_micros(&self) -> (r: u32)
        ensures
            r == self.spec_nanos() / NANOS_PER_MICRO,
    {
        self.nanos / NANOS_PER_MICRO
    }

    /// Returns the fractional part of this `ArchivedDuration`, in
    /// nanoseconds: always below one billion.
    pub fn subsec_nanos(&self) -> (r: u32)
        ensures
            r == self.spec_nanos(),
    {
        self.nanos
    }

    /// Returns the total number of whole milliseconds contained by this
    /// `ArchivedDuration`.
    pub fn as_millis(&self) -> (r: u128)
        ensures
            r == self.spec_secs() as int * MILLIS_PER_SEC + self.spec_nanos() / NANOS_PER_MILLI,
    {
        self.as_secs() as u128 * MILLIS_PER_SEC as u128 + (self.subsec_nanos() / NANOS_PER_MILLI)
            as u128
    }

    /// Returns the total number of whole microseconds contained by this
    /// `ArchivedDuration`.
    pub fn as_micros(&self) -> (r: u128)
        ensures
            r == self.spec_secs() as int * MICROS_PER_SEC + self.spec_nanos() / NANOS_PER_MICRO,
    {
        self.as_secs() as u128 * MICROS_PER_SEC as u128 + (self.subsec_nanos() / NANOS_PER_MICRO)
            as u128
    }

    /// Returns the total number of nanoseconds contained by this
    /// `ArchivedDuration`.
    pub fn as_nanos(&self) -> (r: u128)
        ensures
            r == self.spec_secs() as int * NANOS_PER_SEC + self.spec_nanos(),
    {
        self.as_secs() as u128 * NANOS_PER_SEC as u128 + self.subsec_nanos() as u128
    }
}

/// The archived bytes of a duration.
pub open spec fn spec_duration_bytes(v: Duration) -> Seq<u8> {
    spec_u64_to_le_bytes(v.secs) + spec_u32_to_le_bytes(v.nanos)
}

/// A well-formed archived duration at `pos`: in bounds, aligned, and with a
/// nanosecond field below one billion.
pub open spec fn duration_wf_at(b: Seq<u8>, pos: int) -> bool {
    &&& 0 <= pos
    &&& pos % (DURATION_ALIGN as int) == 0
    &&& pos + DURATION_SIZE <= b.len()
    &&& spec_u32_from_le_bytes(b.subrange(pos + 8, pos + 12)) < NANOS_PER_SEC
}

/// The duration archived at `pos`.
pub open spec fn spec_duration_at(b: Seq<u8>, pos: int) -> Duration {
    Duration {
        secs: spec_u64_from_le_bytes(b.subrange(pos, pos + 8)),
        nanos: spec_u32_from_le_bytes(b.subrange(pos + 8, pos + 12)),
    }
}

/// Writes the archived form of `v` into a reserved place, touching no byte
/// outside it.
pub fn resolve_duration(v: &Duration, place: Place, buf: &mut Vec<u8>)
    requires
        place.size == DURATION_SIZE,
        place.pos + place.size <= old(buf)@.len(),
    ensures
        final(buf)@.len() == old(buf)@.len(),
        final(buf)@.subrange(place.pos as int, place.pos + DURATION_SIZE) == spec_duration_bytes(
            *v,
        ),
        forall|i: int|
            0 <= i < old(buf)@.len() && !(place.pos <= i < place.pos + DURATION_SIZE)
                ==> final(buf)@[i] == old(buf)@[i],
{
    let blen = buf.len();
    proof {
        lemma_auto_spec_u64_to_from_le_bytes();
        lemma_auto_spec_u32_to_from_le_bytes();
    }
    store_u64_at(buf, place.pos, v.secs);
    store_u32_at(buf, place.pos + 8, v.nanos);
    proof {
        assert(buf@.subrange(place.pos as int, place.pos + DURATION_SIZE) =~= spec_duration_bytes(
            *v,
        ));
    }
}

/// Serializes `v` into a fresh buffer. A duration has no children, so the
/// buffer is exactly its twelve archived bytes and the root position is 0.
/// Serialization is a pure function of the value: it never fails, and equal
/// values give byte-identical buffers.
pub fn to_bytes_duration(v: &Duration) -> (r: Result<(Vec<u8>, usize), Error>)
    ensures
        r matches Ok(p) ==> {
            &&& p.0@ == spec_duration_bytes(*v)
            &&& p.1 == 0
            &&& p.0@.len() == DURATION_SIZE
        },
        r is Ok,
{
    let mut w = Writer::new();
    let place = match w.reserve(DURATION_SIZE, DURATION_ALIGN) {
        Ok(p) => p,
        Err(e) => {
            return Err(e);
        },
    };
    resolve_duration(v, place, &mut w.bytes);
    proof {
        lemma_auto_spec_u64_to_from_le_bytes();
        lemma_auto_spec_u32_to_from_le_bytes();
        assert(w.bytes@ =~= spec_duration_bytes(*v));
    }
    Ok((w.bytes, 0))
}

/// Checks that `pos` holds a well-formed archived duration: in bounds first,
/// then aligned, then a nanosecond field below one billion.
pub fn validate_duration(buf: &Vec<u8>, pos: usize) -> (r: Result<(), Error>)
    ensures
        r is Ok <==> duration_wf_at(buf@, pos as int),
        pos + DURATION_SIZE > buf@.len() ==> r == Result::<(), Error>::Err(Error::OutOfBounds),
        pos + DURATION_SIZE <= buf@.len() && pos as int % 4 != 0 ==> r == Result::<(), Error>::Err(
            Error::Unaligned,
        ),
        pos + DURATION_SIZE <= buf@.len() && pos as int % 4 == 0 && spec_u32_from_le_bytes(
            buf@.subrange(pos + 8, pos + 12),
        ) >= NANOS_PER_SEC ==> r == Result::<(), Error>::Err(Error::InvalidDuration),
{
    let len = buf.len();
    if len < DURATION_SIZE || pos > len - DURATION_SIZE {
        return Err(Error::OutOfBounds);
    }
    if pos % DURATION_ALIGN != 0 {
        return Err(Error::Unaligned);
    }
    let nanos = load_u32_at(buf, pos + 8);
    if nanos >= NANOS_PER_SEC {
        return Err(Error::InvalidDuration);
    }
    Ok(())
}

/// Reinterprets the twelve bytes at `pos` as an archived duration. Constant
/// work; the precondition is that the buffer was produced by serialization
/// or has been validated.
pub fn access_duration(buf: &Vec<u8>, pos: usize) -> (r: ArchivedDuration)
    requires
        duration_wf_at(buf@, pos as int),
    ensures
        r.spec_secs() == spec_duration_at(buf@, pos as int).secs,
        r.spec_nanos() == spec_duration_at(buf@, pos as int).nanos,
        r.spec_nanos() < NANOS_PER_SEC,
{
    let blen = buf.len();
    let secs = load_u64_at(buf, pos);
    let nanos = load_u32_at(buf, pos + 4 + 4);
    ArchivedDuration { secs, nanos }
}

/// Validates, then accesses: the safe entry point for untrusted bytes. No
/// archived reference is ever returned alongside an error.
pub fn access_duration_checked(buf: &Vec<u8>, pos: usize) -> (r: Result<ArchivedDuration, Error>)
    ensures
        r is Ok <==> duration_wf_at(buf@, pos as int),
        r matches Ok(a) ==> a.spec_secs() == spec_duration_at(buf@, pos as int).secs
            && a.spec_nanos() == spec_duration_at(buf@, pos as int).nanos,
{
    match validate_duration(buf, pos) {
        Ok(_) => Ok(access_duration(buf, pos)),
        Err(e) => Err(e),
    }
}

/// Reconstructs a native duration from an archived one.
pub fn deserialize_duration(a: &ArchivedDuration) -> (r: Duration)
    requires
        a.spec_nanos() < NANOS_PER_SEC,
    ensures
        r == (Duration { secs: a.spec_secs(), nanos: a.spec_nanos() }),
        r.wf(),
{
    Duration::new(a.as_secs(), a.subsec_nanos())
}

/// Round-trip identity and zero-copy equivalence for durations: the archived
/// bytes of `v` are well-formed at the root, and the value read back from
/// them — field for field, the archived view — is `v` itself.
pub proof fn lemma_duration_roundtrip(v: Duration)
    requires
        v.wf(),
    ensures
        duration_wf_at(spec_duration_bytes(v), 0),
        spec_duration_at(spec_duration_bytes(v), 0) == v,
{
    lemma_auto_spec_u64_to_from_le_bytes();
    lemma_auto_spec_u32_to_from_le_bytes();
    let b = spec_duration_bytes(v);
    assert(b.subrange(0, 8) =~= spec_u64_to_le_bytes(v.secs));
    assert(b.subrange(8, 12) =~= spec_u32_to_le_bytes(v.nanos));
}

/// Serialization is idempotent: the archived bytes depend on the value and
/// the configuration alone, so two buffers for one value are byte-identical.
pub proof fn lemma_duration_serialization_pure(v: Duration, b1: Seq<u8>, b2: Seq<u8>)
    requires
        b1 == spec_duration_bytes(v),
        b2 == spec_duration_bytes(v),
    ensures
        b1 == b2,
{
}

/// Validator soundness for durations: a well-formed position can be
/// reinterpreted without reading out of bounds, and both fields sit at
/// positions aligned for their four-byte loads.
pub proof fn lemma_duration_access_sound(b: Seq<u8>, pos: int)
    requires
        duration_wf_at(b, pos),
    ensures
        0 <= pos && pos + DURATION_SIZE <= b.len(),
        pos % 4 == 0,
        (pos + 8) % 4 == 0,
{
    assert((pos + 8) % 4 == 0) by {
        vstd::arithmetic::div_mod::lemma_add_mod_noop(pos, 8, 4);
    }
}

} // verus!
