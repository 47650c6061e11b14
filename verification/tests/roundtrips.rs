//! Round trips through serialization, validation, access, and
//! deserialization for each kind of supported value.

use rkyv::duration::{access_duration, to_bytes_duration, validate_duration, Duration};
use rkyv::list::{deserialize_list, to_bytes_list, validate_list, LinkedList};
use rkyv::product::{access_product, to_bytes_product, to_bytes_unit, validate_product, Unit};
use rkyv::sum::{access_test, to_bytes_test, validate_test};

fn product_roundtrip(v: rkyv::product::Test) {
    let (buf, root) = to_bytes_product(&v).unwrap();
    assert!(validate_product(&buf, root).is_ok());
    assert_eq!(access_product(&buf, root), v);
}

fn sum_roundtrip(v: rkyv::sum::Test) {
    let (buf, root) = to_bytes_test(&v).unwrap();
    assert!(validate_test(&buf, root).is_ok());
    assert_eq!(access_test(&buf, root), v);
}

#[test]
fn roundtrip_unit_struct() {
    let (buf, root) = to_bytes_unit(&Unit).unwrap();
    assert_eq!(buf.len(), 0);
    assert_eq!(root, 0);
    let (buf2, root2) = to_bytes_unit(&Unit).unwrap();
    assert_eq!(buf, buf2);
    assert_eq!(root2, 0);
}

#[test]
fn roundtrip_tuple_struct() {
    let v = rkyv::product::Test {
        a: (),
        b: 42,
        c: Some(42),
    };
    product_roundtrip(v);
    product_roundtrip(v);
}

#[test]
fn roundtrip_struct() {
    product_roundtrip(rkyv::product::Test {
        a: (),
        b: 42,
        c: Some(42),
    });
    product_roundtrip(rkyv::product::Test {
        a: (),
        b: 42,
        c: Some(42),
    });
}

#[test]
fn roundtrip_generic_struct() {
    product_roundtrip(rkyv::product::Test {
        a: (),
        b: 42,
        c: Some(42),
    });
}

#[test]
fn roundtrip_enum() {
    sum_roundtrip(rkyv::sum::Test::A);
    sum_roundtrip(rkyv::sum::Test::B(42));
    sum_roundtrip(rkyv::sum::Test::C { inner: 42 });
}

#[test]
fn roundtrip_generic_enum() {
    sum_roundtrip(rkyv::sum::Test::A);
    sum_roundtrip(rkyv::sum::Test::B(42));
    sum_roundtrip(rkyv::sum::Test::C { inner: 42 });
}

#[test]
fn derive_attributes() {
    product_roundtrip(rkyv::product::Test {
        a: (),
        b: 42,
        c: Some(12),
    });
}

#[test]
fn compare() {
    let (b1, r1) = to_bytes_duration(&Duration::new(1, 0)).unwrap();
    let (b2, r2) = to_bytes_duration(&Duration::new(2, 0)).unwrap();
    let a1 = access_duration(&b1, r1);
    let a1b = access_duration(&b1, r1);
    let a2 = access_duration(&b2, r2);
    assert_eq!(a1, a1b);
    assert!(a1 < a2);
    assert!(a1 <= a1b);
}

#[test]
fn default_type_parameters() {
    product_roundtrip(rkyv::product::Test {
        a: (),
        b: 0,
        c: None,
    });
    sum_roundtrip(rkyv::sum::Test::B(0));
}

#[test]
fn const_generics() {
    let (buf, root) = to_bytes_unit(&Unit).unwrap();
    assert_eq!((buf.len(), root), (0, 0));
    let (buf, root) = to_bytes_unit(&Unit).unwrap();
    assert_eq!((buf.len(), root), (0, 0));
    let (buf, root) = to_bytes_unit(&Unit).unwrap();
    assert_eq!((buf.len(), root), (0, 0));
}

#[test]
fn pass_thru_derive_with_option() {
    let _ = rkyv::product::Test {
        a: (),
        b: 0,
        c: Some(0),
    };
}

#[test]
fn recursive_self_types() {
    let value = LinkedList::Node {
        val: 42,
        next: Box::new(LinkedList::Node {
            val: 100,
            next: Box::new(LinkedList::Empty),
        }),
    };
    let (buf, root) = to_bytes_list(&value).unwrap();
    assert!(validate_list(&buf, root, 16).is_ok());
    assert_eq!(deserialize_list(&buf, root), value);
}

#[test]
fn recursive_structures() {
    let value = LinkedList::Node {
        val: 0,
        next: Box::new(LinkedList::Node {
            val: 0,
            next: Box::new(LinkedList::Empty),
        }),
    };
    let (buf, root) = to_bytes_list(&value).unwrap();
    assert!(validate_list(&buf, root, 16).is_ok());
    assert_eq!(deserialize_list(&buf, root), value);
}

#[test]
fn roundtrip_empty_list() {
    let (buf, root) = to_bytes_list(&LinkedList::Empty).unwrap();
    assert_eq!(buf.len(), 16);
    assert_eq!(root, 0);
    assert!(validate_list(&buf, root, 1).is_ok());
    assert_eq!(deserialize_list(&buf, root), LinkedList::Empty);
}

#[test]
fn roundtrip_duration() {
    let v = Duration::new(7, 999_999_999);
    let (buf, root) = to_bytes_duration(&v).unwrap();
    assert!(validate_duration(&buf, root).is_ok());
    let archived = access_duration(&buf, root);
    assert_eq!(archived.as_secs(), 7);
    assert_eq!(archived.subsec_nanos(), 999_999_999);
    assert_eq!(rkyv::duration::deserialize_duration(&archived), v);
}
