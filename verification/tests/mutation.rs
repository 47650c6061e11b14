//! In-place mutation of archived values: primitive stores, enum overwrites,
//! stores through relative pointers, and length-preserving case folds.

use rkyv::boxed::{access_box_i32, to_bytes_box_i32, update_box_i32, validate_box_i32};
use rkyv::primitive::{access_i32, to_bytes_i32, update_i32, validate_i32};
use rkyv::product::{access_product, to_bytes_product, update_product_b, validate_product};
use rkyv::strings::Utf8String;
use rkyv::strvec::{
    deserialize_strvec, strvec_len, to_bytes_strvec, uppercase_strvec_elem, validate_strvec,
};
use rkyv::sum::{access_test, resolve_test, to_bytes_test};

#[test]
fn basic_mutable_refs() {
    let (mut buf, root) = to_bytes_i32(42).unwrap();
    assert_eq!(access_i32(&buf, root), 42);
    update_i32(&mut buf, root, 11);
    assert_eq!(access_i32(&buf, root), 11);
    assert!(validate_i32(&buf, root).is_ok());
}

#[test]
fn struct_mutable_refs() {
    let value = rkyv::product::Test {
        a: (),
        b: 10,
        c: None,
    };
    let (mut buf, root) = to_bytes_product(&value).unwrap();
    assert_eq!(access_product(&buf, root).b, 10);
    update_product_b(&mut buf, root, 50);
    assert_eq!(access_product(&buf, root).b, 50);
    assert!(validate_product(&buf, root).is_ok());
}

#[test]
fn enum_mutable_ref() {
    let value = rkyv::sum::Test::A;
    let (mut buf, root) = to_bytes_test(&value).unwrap();
    if let rkyv::sum::Test::A = access_test(&buf, root) {
        ()
    } else {
        panic!("incorrect enum after archiving");
    }
    resolve_test(&rkyv::sum::Test::C { inner: 42 }, root, &mut buf);
    if let rkyv::sum::Test::C { inner } = access_test(&buf, root) {
        assert_eq!(inner, 42);
    } else {
        panic!("incorrect enum after mutation");
    }
}

#[test]
fn struct_container_mutable_refs() {
    let (mut abuf, aroot) = to_bytes_box_i32(10).unwrap();
    let b = vec![
        Utf8String::from_bytes(b"hello".to_vec()).unwrap(),
        Utf8String::from_bytes(b"world".to_vec()).unwrap(),
    ];
    let (mut bbuf, broot) = to_bytes_strvec(&b).unwrap();

    assert_eq!(access_box_i32(&abuf, aroot), 10);
    assert_eq!(strvec_len(&bbuf, broot), 2);
    let elems = deserialize_strvec(&bbuf, broot);
    assert_eq!(elems[0].bytes, b"hello".to_vec());
    assert_eq!(elems[1].bytes, b"world".to_vec());

    update_box_i32(&mut abuf, aroot, 50);
    assert_eq!(access_box_i32(&abuf, aroot), 50);
    assert!(validate_box_i32(&abuf, aroot).is_ok());

    uppercase_strvec_elem(&mut bbuf, broot, 0);
    uppercase_strvec_elem(&mut bbuf, broot, 1);
    assert!(validate_strvec(&bbuf, broot).is_ok());
    let elems = deserialize_strvec(&bbuf, broot);
    assert_eq!(elems[0].bytes, b"HELLO".to_vec());
    assert_eq!(elems[1].bytes, b"WORLD".to_vec());
}
