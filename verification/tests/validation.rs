//! The validator on well-formed and on corrupted buffers, and one input for
//! every error the library can report.

use rkyv::boxed::{to_bytes_box_i32, validate_box_i32};
use rkyv::duration::{to_bytes_duration, validate_duration, Duration};
use rkyv::error::Error;
use rkyv::list::{to_bytes_list, validate_list, LinkedList};
use rkyv::option::{
    access_niched_u32, access_opt_i32, to_bytes_niched_u32, to_bytes_opt_i32, validate_niched_u32,
    validate_opt_i32,
};
use rkyv::primitive::{
    access_bool, access_char, to_bytes_bool, to_bytes_char, to_bytes_i32, validate_bool,
    validate_char, validate_i32,
};
use rkyv::relptr::rel_offset;
use rkyv::strings::Utf8String;
use rkyv::strvec::{strvec_len, to_bytes_strvec, validate_strvec};
use rkyv::sum::to_bytes_test;
use rkyv::writer::Writer;

#[test]
fn well_formed_buffers_validate() {
    let (buf, root) = to_bytes_duration(&Duration::new(1, 2)).unwrap();
    assert!(validate_duration(&buf, root).is_ok());
    let (buf, root) = to_bytes_i32(-7).unwrap();
    assert!(validate_i32(&buf, root).is_ok());
    let (buf, root) = to_bytes_test(&rkyv::sum::Test::C { inner: -1 }).unwrap();
    assert!(rkyv::sum::validate_test(&buf, root).is_ok());
    let (buf, root) = to_bytes_opt_i32(&Some(9)).unwrap();
    assert!(validate_opt_i32(&buf, root).is_ok());
    let (buf, root) = to_bytes_box_i32(5).unwrap();
    assert!(validate_box_i32(&buf, root).is_ok());
}

#[test]
fn empty_vec_validates_without_recursing() {
    let vs: Vec<Utf8String> = Vec::new();
    let (buf, root) = to_bytes_strvec(&vs).unwrap();
    assert!(validate_strvec(&buf, root).is_ok());
    assert_eq!(strvec_len(&buf, root), 0);
}

#[test]
fn null_optional_payload_not_validated() {
    // Tag 0, then garbage where the payload would be: still a valid `None`.
    let buf = vec![0x00, 0, 0, 0, 0xFF, 0xFF, 0xFF, 0xFF];
    assert!(validate_opt_i32(&buf, 0).is_ok());
    assert_eq!(access_opt_i32(&buf, 0), None);
    // The niched form spends no tag at all: zero is `None`.
    let (nbuf, nroot) = to_bytes_niched_u32(&None).unwrap();
    assert_eq!(nbuf, vec![0, 0, 0, 0]);
    assert!(validate_niched_u32(&nbuf, nroot).is_ok());
    assert_eq!(access_niched_u32(&nbuf, nroot), None);
    let (sbuf, sroot) = to_bytes_niched_u32(&Some(7)).unwrap();
    assert_eq!(sbuf.len(), 4);
    assert_eq!(access_niched_u32(&sbuf, sroot), Some(7));
}

#[test]
fn depth_limit_is_exact() {
    let value = LinkedList::Node {
        val: 42,
        next: Box::new(LinkedList::Node {
            val: 100,
            next: Box::new(LinkedList::Empty),
        }),
    };
    let (buf, root) = to_bytes_list(&value).unwrap();
    assert!(validate_list(&buf, root, 3).is_ok());
    assert_eq!(validate_list(&buf, root, 2), Err(Error::DepthExceeded));
}

#[test]
fn flipped_discriminant_rejected() {
    let (mut buf, root) = to_bytes_test(&rkyv::sum::Test::B(42)).unwrap();
    buf[root] = 0x05;
    assert_eq!(
        rkyv::sum::validate_test(&buf, root),
        Err(Error::InvalidDiscriminant)
    );
}

#[test]
fn flipped_utf8_byte_rejected() {
    let vs = vec![
        Utf8String::from_bytes(b"hello".to_vec()).unwrap(),
        Utf8String::from_bytes(b"world".to_vec()).unwrap(),
    ];
    let (mut buf, root) = to_bytes_strvec(&vs).unwrap();
    assert!(validate_strvec(&buf, root).is_ok());
    buf[0] = 0xFF;
    assert_eq!(validate_strvec(&buf, root), Err(Error::InvalidUtf8));
}

#[test]
fn out_of_space_on_bounded_writer() {
    let mut w = Writer::bounded(4);
    let five = vec![1u8, 2, 3, 4, 5];
    assert_eq!(w.write_slice(&five), Err(Error::OutOfSpace));
    assert_eq!(w.pos(), 0);
    let four = vec![1u8, 2, 3, 4];
    assert!(w.write_slice(&four).is_ok());
    assert_eq!(w.write_byte(9), Err(Error::OutOfSpace));
}

#[test]
fn offset_overflow_rejected() {
    assert_eq!(rel_offset(0, 0x8000_0000usize), Err(Error::OffsetOverflow));
    assert_eq!(rel_offset(0x8000_0001usize, 0), Err(Error::OffsetOverflow));
    assert_eq!(rel_offset(12, 4), Ok(-8));
}

#[test]
fn bounds_and_alignment_rejected() {
    let short = vec![0u8; 4];
    assert_eq!(validate_duration(&short, 0), Err(Error::OutOfBounds));
    let buf = vec![0u8; 16];
    assert_eq!(validate_duration(&buf, 2), Err(Error::Unaligned));
    assert_eq!(validate_i32(&buf, 14), Err(Error::OutOfBounds));
    assert_eq!(validate_i32(&buf, 2), Err(Error::Unaligned));
}

#[test]
fn forward_pointer_rejected_as_cycle() {
    // A node cell whose relative pointer is zero targets a position after
    // itself: the validator's on-stack rule rejects it.
    let mut buf = vec![0u8; 32];
    buf[16] = 1;
    assert_eq!(validate_list(&buf, 16, 10), Err(Error::CycleDetected));
}

#[test]
fn overlapping_payload_rejected() {
    // A string descriptor whose payload would sit on the descriptor itself.
    let mut buf = vec![0u8; 8];
    buf[0] = 4;
    assert_eq!(
        rkyv::strings::validate_str(&buf, 0),
        Err(Error::OverlapError)
    );
}

#[test]
fn invalid_bool_rejected() {
    let (buf, root) = to_bytes_bool(true).unwrap();
    assert_eq!(buf, vec![1u8]);
    assert!(validate_bool(&buf, root).is_ok());
    assert_eq!(access_bool(&buf, root), true);
    let bad = vec![2u8];
    assert_eq!(validate_bool(&bad, 0), Err(Error::InvalidBool));
}

#[test]
fn invalid_char_rejected() {
    let (buf, root) = to_bytes_char('é').unwrap();
    assert!(validate_char(&buf, root).is_ok());
    assert_eq!(access_char(&buf, root), 'é');
    let surrogate = 0xD800u32.to_le_bytes().to_vec();
    assert_eq!(validate_char(&surrogate, 0), Err(Error::InvalidChar));
    let too_big = 0x110000u32.to_le_bytes().to_vec();
    assert_eq!(validate_char(&too_big, 0), Err(Error::InvalidChar));
}

#[test]
fn invalid_duration_nanos_rejected() {
    let mut buf = vec![0u8; 12];
    let nanos = 1_000_000_000u32.to_le_bytes();
    buf[8..12].copy_from_slice(&nanos);
    assert_eq!(validate_duration(&buf, 0), Err(Error::InvalidDuration));
}

#[test]
fn scratch_is_strictly_lifo() {
    let mut s = rkyv::scratch::Scratch::new();
    let outer = s.acquire(8);
    let inner = s.acquire(4);
    assert_eq!(s.depth(), 2);
    // Releasing the outer frame first leaks the inner one.
    assert_eq!(s.release(outer), Err(Error::ScratchLeak));
    let bytes = s.release(inner).unwrap();
    assert_eq!(bytes, vec![0u8; 4]);
    let bytes = s.release(outer).unwrap();
    assert_eq!(bytes, vec![0u8; 8]);
    assert_eq!(s.depth(), 0);
    assert_eq!(s.release(0), Err(Error::ScratchLeak));
}

#[test]
fn scratch_absent_is_unsupported() {
    let mut s = rkyv::scratch::Scratch::new();
    assert!(rkyv::scratch::require_scratch(Some(&mut s)).is_ok());
    match rkyv::scratch::require_scratch(None) {
        Err(e) => assert_eq!(e, Error::ScratchUnsupported),
        Ok(_) => panic!("a missing scratch allocator must be reported"),
    }
}

#[test]
fn invalid_utf8_string_refused_at_construction() {
    assert!(Utf8String::from_bytes(vec![0xFF]).is_none());
    assert!(Utf8String::from_bytes(vec![0xED, 0xA0, 0x80]).is_none());
    assert!(Utf8String::from_bytes("héllo \u{1F600}".as_bytes().to_vec()).is_some());
}
