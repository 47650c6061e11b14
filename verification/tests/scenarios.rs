//! Exact layouts of serialized buffers, and the layout computation for
//! product types.

use rkyv::duration::{access_duration, deserialize_duration, to_bytes_duration, Duration};
use rkyv::layout::{struct_layout, FieldDims};
use rkyv::list::{deserialize_list, to_bytes_list, validate_list, LinkedList};
use rkyv::product::{access_unit, to_bytes_unit, validate_unit, Unit};
use rkyv::strings::Utf8String;
use rkyv::strvec::{deserialize_strvec, strvec_len, to_bytes_strvec, validate_strvec};
use rkyv::sum::to_bytes_test;

fn le32_at(buf: &[u8], pos: usize) -> i32 {
    i32::from_le_bytes([buf[pos], buf[pos + 1], buf[pos + 2], buf[pos + 3]])
}

#[test]
fn duration_exact_bytes() {
    let v = Duration::new(42, 123_456_789);
    let (buf, root) = to_bytes_duration(&v).unwrap();
    assert_eq!(root, 0);
    assert_eq!(
        buf,
        vec![0x2A, 0, 0, 0, 0, 0, 0, 0, 0x15, 0xCD, 0x5B, 0x07]
    );
    let archived = access_duration(&buf, root);
    assert_eq!(archived.as_secs(), 42);
    assert_eq!(archived.subsec_nanos(), 123_456_789);
    assert_eq!(archived.subsec_millis(), 123);
    assert_eq!(archived.subsec_micros(), 123_456);
    assert_eq!(archived.as_millis(), 42_123);
    assert_eq!(archived.as_micros(), 42_123_456);
    assert_eq!(archived.as_nanos(), 42_123_456_789);
    assert_eq!(deserialize_duration(&archived), v);
}

#[test]
fn unit_struct_empty_footprint() {
    let (buf, root) = to_bytes_unit(&Unit).unwrap();
    assert_eq!(buf.len(), 0);
    assert_eq!(root, 0);
    assert!(validate_unit(&buf, root).is_ok());
    assert_eq!(access_unit(&buf, root), Unit);
}

#[test]
fn enum_tag_then_padded_payload() {
    let (buf, root) = to_bytes_test(&rkyv::sum::Test::B(42)).unwrap();
    assert_eq!(root, 0);
    assert_eq!(buf, vec![0x01, 0, 0, 0, 0x2A, 0, 0, 0]);
}

#[test]
fn linked_list_children_before_parents() {
    let value = LinkedList::Node {
        val: 42,
        next: Box::new(LinkedList::Node {
            val: 100,
            next: Box::new(LinkedList::Empty),
        }),
    };
    let (buf, root) = to_bytes_list(&value).unwrap();
    // The empty tail is written first, the root cell last.
    assert_eq!(buf.len(), 48);
    assert_eq!(root, 32);
    assert_eq!(root, buf.len() - 16);
    assert_eq!(buf[0], 0); // empty cell at position 0
    assert_eq!(buf[16], 1); // inner node
    assert_eq!(le32_at(&buf, 20), 100);
    assert_eq!(le32_at(&buf, 24), 0 - (16 + 8)); // its box points back at 0
    assert_eq!(buf[32], 1); // root node
    assert_eq!(le32_at(&buf, 36), 42);
    assert_eq!(le32_at(&buf, 40), 16 - (32 + 8)); // its box points back at 16
    assert!(validate_list(&buf, root, 3).is_ok());
    assert_eq!(deserialize_list(&buf, root), value);
}

#[test]
fn vec_of_strings_layout() {
    let vs = vec![
        Utf8String::from_bytes(b"hello".to_vec()).unwrap(),
        Utf8String::from_bytes(b"world".to_vec()).unwrap(),
    ];
    let (buf, root) = to_bytes_strvec(&vs).unwrap();
    assert_eq!(&buf[0..5], b"hello");
    assert_eq!(&buf[5..10], b"world");
    assert_eq!(buf.len(), 36);
    assert_eq!(root, 28);
    assert_eq!(root, buf.len() - 8);
    // Descriptor region at 12: two (offset, length) pairs, then the root.
    assert_eq!(le32_at(&buf, 12), 0 - 12);
    assert_eq!(le32_at(&buf, 16), 5);
    assert_eq!(le32_at(&buf, 20), 5 - 20);
    assert_eq!(le32_at(&buf, 24), 5);
    assert_eq!(le32_at(&buf, 28), 12 - 28);
    assert_eq!(le32_at(&buf, 32), 2);
    assert!(validate_strvec(&buf, root).is_ok());
    assert_eq!(strvec_len(&buf, root), 2);
    let elems = deserialize_strvec(&buf, root);
    assert_eq!(elems, vs);
}

#[test]
fn serialization_is_idempotent() {
    let v = Duration::new(3, 5);
    assert_eq!(to_bytes_duration(&v).unwrap(), to_bytes_duration(&v).unwrap());
    let l = LinkedList::Node {
        val: 1,
        next: Box::new(LinkedList::Empty),
    };
    assert_eq!(to_bytes_list(&l).unwrap(), to_bytes_list(&l).unwrap());
    let vs = vec![Utf8String::from_bytes(b"ab".to_vec()).unwrap()];
    assert_eq!(to_bytes_strvec(&vs).unwrap(), to_bytes_strvec(&vs).unwrap());
}

#[test]
fn repr_c_packed() {
    let fields = vec![
        FieldDims { size: 1, align: 1 },
        FieldDims { size: 4, align: 1 },
        FieldDims { size: 1, align: 1 },
    ];
    let layout = struct_layout(&fields, 1);
    assert_eq!(layout.size, 6);
    let layout = struct_layout(&fields, 1);
    assert_eq!(layout.size, 6);
}

#[test]
fn repr_c_align() {
    let fields = vec![FieldDims { size: 1, align: 1 }];
    let layout = struct_layout(&fields, 8);
    assert_eq!(layout.align, 8);
    let layout = struct_layout(&fields, 8);
    assert_eq!(layout.align, 8);
}

#[test]
fn struct_layout_aligns_every_field() {
    let fields = vec![
        FieldDims { size: 1, align: 1 },
        FieldDims { size: 4, align: 4 },
        FieldDims { size: 8, align: 4 },
        FieldDims { size: 2, align: 2 },
    ];
    let layout = struct_layout(&fields, 1);
    assert_eq!(layout.offsets, vec![0, 4, 8, 16]);
    for (k, f) in fields.iter().enumerate() {
        assert_eq!(layout.offsets[k] % f.align, 0);
    }
    assert_eq!(layout.size, 20);
    assert_eq!(layout.align, 4);
}
