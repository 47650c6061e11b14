//! Sharing preservation — each identity's payload is written once and
//! archived pointers agree exactly on shared identities — and round trips
//! of owned strings.

use rkyv::primitive::access_i32;
use rkyv::shared::{serialize_shared, SharedItem};
use rkyv::strings::{deserialize_str, to_bytes_str, uppercase_str_in_place, validate_str};
use rkyv::strings::Utf8String;
use rkyv::writer::Writer;

#[test]
fn shared_payload_written_once() {
    let items = vec![
        SharedItem { id: 1, value: 10 },
        SharedItem { id: 2, value: 20 },
        SharedItem { id: 1, value: 10 },
    ];
    let mut w = Writer::new();
    let ptrs = serialize_shared(&items, &mut w).unwrap();
    assert_eq!(ptrs.len(), 3);
    // Two distinct identities: exactly two payloads in the buffer.
    assert_eq!(w.bytes.len(), 8);
    assert_eq!(ptrs[0], ptrs[2]);
    assert_ne!(ptrs[0], ptrs[1]);
    assert_eq!(access_i32(&w.bytes, ptrs[0]), 10);
    assert_eq!(access_i32(&w.bytes, ptrs[1]), 20);
    assert_eq!(access_i32(&w.bytes, ptrs[2]), 10);
}

#[test]
fn distinct_identities_stay_distinct() {
    let items = vec![
        SharedItem { id: 5, value: 1 },
        SharedItem { id: 6, value: 1 },
    ];
    let mut w = Writer::new();
    let ptrs = serialize_shared(&items, &mut w).unwrap();
    // Equal payloads, but different objects: two copies, two positions.
    assert_ne!(ptrs[0], ptrs[1]);
    assert_eq!(w.bytes.len(), 8);
}

#[test]
fn string_roundtrip_and_case_fold() {
    let s = Utf8String::from_bytes(b"hello".to_vec()).unwrap();
    let (mut buf, root) = to_bytes_str(&s).unwrap();
    assert!(validate_str(&buf, root).is_ok());
    assert_eq!(deserialize_str(&buf, root), s);
    uppercase_str_in_place(&mut buf, root);
    assert!(validate_str(&buf, root).is_ok());
    assert_eq!(deserialize_str(&buf, root).bytes, b"HELLO".to_vec());
}

#[test]
fn empty_string_roundtrip() {
    let s = Utf8String::from_bytes(Vec::new()).unwrap();
    let (buf, root) = to_bytes_str(&s).unwrap();
    assert!(validate_str(&buf, root).is_ok());
    assert_eq!(deserialize_str(&buf, root).bytes.len(), 0);
}
