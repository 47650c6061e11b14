//! A zero-copy serialization core.
//!
//! Values are serialized into a self-contained byte buffer laid out so that,
//! once the buffer has been produced (or validated, when it comes from an
//! untrusted source), every field of the archived root can be read directly at
//! a known position — no parsing, no allocation, no pointer fix-up.
//!
//! The configuration of this build is fixed: little-endian byte order, aligned
//! primitives, and 32-bit offsets and lengths. Owned children are written
//! before their parents and referenced through signed relative pointers, so a
//! buffer never contains a forward reference.

pub mod boxed;
pub mod codec;
pub mod duration;
pub mod error;
pub mod layout;
pub mod list;
pub mod option;
pub mod product;
pub mod relptr;
pub mod scratch;
pub mod primitive;
pub mod shared;
pub mod strings;
pub mod strvec;
pub mod sum;
pub mod utf8;
pub mod writer;
