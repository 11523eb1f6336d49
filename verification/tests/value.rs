use db_wrapper::{serialize_value, strip_varint, DbError, StoredValue};

#[test]
fn integers_are_little_endian() {
    assert_eq!(serialize_value(&7u8), vec![7]);
    assert_eq!(
        serialize_value(&0x0102_0304_0506_0708u64),
        vec![8, 7, 6, 5, 4, 3, 2, 1]
    );
}

#[test]
fn bools_are_one_byte() {
    assert_eq!(serialize_value(&true), vec![1]);
    assert_eq!(serialize_value(&false), vec![0]);
}

#[test]
fn text_is_utf8() {
    assert_eq!(serialize_value(&"h\u{e9}".to_string()), vec![104, 0xc3, 0xa9]);
    assert_eq!(serialize_value(&String::new()), Vec::<u8>::new());
}

#[test]
fn serialised_values_are_read_back() {
    assert_eq!(u64::from_bytes(&serialize_value(&99u64)), 99);
    assert_eq!(u8::from_bytes(&serialize_value(&99u8)), 99);
    assert!(bool::from_bytes(&serialize_value(&true)));
    assert!(!bool::from_bytes(&serialize_value(&false)));
    let s = "persisted".to_string();
    assert_eq!(String::from_bytes(&serialize_value(&s)), s);
    for len in [0usize, 1, 253, 254, 65_535, 65_536] {
        let blob: Vec<u8> = (0..len).map(|i| (i % 251) as u8).collect();
        assert_eq!(<Vec<u8>>::from_bytes(&serialize_value(&blob)), blob);
    }
}

#[test]
fn bytes_of_the_wrong_length_are_read_as_zero() {
    assert_eq!(u64::from_bytes(&[1, 2, 3]), 0);
    assert_eq!(u8::from_bytes(&[1, 2]), 0);
    assert!(!bool::from_bytes(&[]));
    assert!(bool::from_bytes(&[2, 0]));
}

#[test]
fn blobs_are_read_as_far_as_they_go() {
    assert_eq!(<Vec<u8>>::from_bytes(&[]), Vec::<u8>::new());
    assert_eq!(<Vec<u8>>::from_bytes(&[2, 7, 8, 9]), vec![7, 8]);
    assert_eq!(<Vec<u8>>::from_bytes(&[9, 7, 8]), vec![7, 8]);
    assert_eq!(<Vec<u8>>::from_bytes(&[254, 7]), Vec::<u8>::new());
    assert_eq!(<Vec<u8>>::from_bytes(&[254, 1, 0, 7]), vec![7]);
    assert_eq!(<Vec<u8>>::from_bytes(&[255, 1, 0, 0, 0, 7, 8]), vec![7]);
}

#[test]
fn blobs_have_a_varint_prefix() {
    let short: Vec<u8> = vec![9; 253];
    assert_eq!(&serialize_value(&short)[..2], &[253, 9]);
    let medium: Vec<u8> = vec![9; 254];
    assert_eq!(&serialize_value(&medium)[..4], &[254, 254, 0, 9]);
    let long: Vec<u8> = vec![9; 65_536];
    assert_eq!(&serialize_value(&long)[..6], &[255, 0, 0, 1, 0, 9]);
}

#[test]
fn strip_undoes_serialise() {
    for len in [0usize, 1, 253, 254, 255, 65_535, 65_536, 70_000] {
        let blob: Vec<u8> = (0..len).map(|i| (i % 251) as u8).collect();
        assert_eq!(strip_varint(&serialize_value(&blob)), blob.as_slice());
    }
}

#[test]
fn strip_leaves_short_data_alone() {
    let empty: [u8; 0] = [];
    assert_eq!(strip_varint(&empty), &empty);
    assert_eq!(strip_varint(&[254, 1]), &[254, 1]);
    assert_eq!(strip_varint(&[255, 1, 2, 3]), &[255, 1, 2, 3]);
}

#[test]
fn strip_goes_by_the_first_byte() {
    assert_eq!(strip_varint(&[253, 1, 2]), &[1, 2]);
    assert_eq!(strip_varint(&[254, 1, 2]), &empty_bytes());
    assert_eq!(strip_varint(&[254, 1, 2, 3]), &[3]);
    assert_eq!(strip_varint(&[255, 1, 2, 3, 4, 5, 6]), &[5, 6]);
}

fn empty_bytes() -> [u8; 0] {
    []
}

#[test]
fn error_messages() {
    let missing = DbError::TableNotFound("users".to_string());
    assert_eq!(
        missing.message(),
        "table `users` not found or not registered"
    );
    let io = DbError::from(std::io::Error::new(std::io::ErrorKind::Other, "disk full"));
    assert_eq!(io.message(), "io error: disk full");
    assert!(matches!(io, DbError::Io(_)));

    let inner = shodh_redb::Error::TableDoesNotExist("x".to_string());
    let text = inner.to_string();
    let storage = DbError::from(inner);
    assert_eq!(storage.message(), format!("storage error: {text}"));
    assert!(matches!(storage, DbError::Redb(_)));
}

#[test]
fn different_values_have_different_bytes() {
    assert_ne!(serialize_value(&1u64), serialize_value(&256u64));
    let a: Vec<u8> = vec![1, 1];
    let b: Vec<u8> = vec![1];
    assert_ne!(serialize_value(&a), serialize_value(&b));
    assert_ne!(
        serialize_value(&"a".to_string()),
        serialize_value(&"b".to_string())
    );
}
