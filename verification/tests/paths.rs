use archiinventory::data::{
    decode_path, encode_path, is_stored_raw, DecodePathError, NativePath, PathFamily,
};
use archiinventory::os_path::{self, OsPath, PathError};

#[test]
fn text_path_comes_back() {
    let stored = encode_path(&NativePath::Text("/home/a\u{e9}/w.json".to_owned()));
    assert_eq!(stored, "/home/a\u{e9}/w.json@");
    for family in [PathFamily::Unix, PathFamily::Windows, PathFamily::Wasm] {
        assert!(!is_stored_raw(&stored, family));
        assert_eq!(decode_path(&stored, family).unwrap(), "/home/a\u{e9}/w.json");
    }
}

#[test]
fn raw_paths_are_packed() {
    let bytes = vec![0x86, 0x4f, 0xd2, 0x6f, 0xb5, 0x59, 0xf7, 0x5b];
    assert_eq!(encode_path(&NativePath::Unix(bytes.clone())), "HelloWorldA");
    assert_eq!(encode_path(&NativePath::Wasm(bytes)), "HelloWorldC");
    let units = vec![0x4f86, 0x6fd2, 0x59b5, 0x5bf7];
    assert_eq!(encode_path(&NativePath::Windows(units)), "HelloWorldB");
}

#[test]
fn raw_paths_are_recognised() {
    assert!(is_stored_raw("HelloWorldA", PathFamily::Unix));
    assert!(!is_stored_raw("HelloWorldA", PathFamily::Windows));
    assert!(is_stored_raw("HelloWorldB", PathFamily::Windows));
    assert!(is_stored_raw("HelloWorldC", PathFamily::Wasm));
    assert!(!is_stored_raw("", PathFamily::Unix));
}

#[test]
fn empty_stored_path() {
    let error = decode_path("", PathFamily::Unix).unwrap_err();
    assert_eq!(error, DecodePathError::Empty);
    assert_eq!(error.message(), "empty decode path");
}

#[test]
fn stored_path_of_unknown_type() {
    let error = decode_path("whatZ", PathFamily::Unix).unwrap_err();
    assert_eq!(error, DecodePathError::InvalidType(b'Z'));
    assert_eq!(error.message(), "invalid decode type Some(90)");
    // A path of another platform family is of an unknown type, too.
    let error = decode_path("HelloWorldB", PathFamily::Unix).unwrap_err();
    assert_eq!(error.message(), "invalid decode type Some(66)");
    // The last byte counts, not the last character.
    let error = decode_path("\u{e9}", PathFamily::Unix).unwrap_err();
    assert_eq!(error, DecodePathError::InvalidType(0xa9));
}

#[test]
fn text_path_with_marker_inside() {
    assert_eq!(decode_path("a@b@", PathFamily::Unix).unwrap(), "a@b");
    assert_eq!(decode_path("@", PathFamily::Unix).unwrap(), "");
}

const TAG: &str = "1.90.0/x86_64-unknown-linux-gnu";

#[test]
fn platform_tags() {
    assert_eq!(os_path::format_tag("1.90.0", "x86_64-unknown-linux-gnu"), TAG);
}

#[test]
fn tagged_text_path_comes_back_everywhere() {
    let path = OsPath::Text("/srv/world.cbor".to_owned());
    let stored = os_path::encode_path(&path, TAG);
    assert!(stored.starts_with("1.90.0/x86_64-unknown-linux-gnu,"));
    for tag in [TAG, "other"] {
        match os_path::decode_path(&stored, tag) {
            Ok(OsPath::Text(text)) => assert_eq!(text, "/srv/world.cbor"),
            other => panic!("{other:?}"),
        }
    }
}

#[test]
fn tagged_raw_path_comes_back_at_home() {
    let bytes = vec![0x86, 0x4f, 0xd2, 0x6f, 0xb5, 0x59, 0xf7, 0x5b];
    let stored = os_path::encode_path(&OsPath::Bytes(bytes.clone()), TAG);
    assert_eq!(stored, "1.90.0/x86_64-unknown-linux-gnu,HelloWorld");
    match os_path::decode_path(&stored, TAG) {
        Ok(OsPath::Bytes(back)) => assert_eq!(back, bytes),
        other => panic!("{other:?}"),
    }
}

#[test]
fn tagged_raw_path_from_elsewhere() {
    let error = os_path::decode_path("old,HelloWorld", "new").unwrap_err();
    assert!(matches!(error, PathError::Incompatible(_, _)));
    assert_eq!(error.message(), "Incompatible path format\nExpected new\nGot old");
}

#[test]
fn tagged_path_without_tag() {
    let error = os_path::decode_path("HelloWorld", TAG).unwrap_err();
    assert!(matches!(error, PathError::Invalid(_)));
    assert_eq!(error.message(), "Invalid path HelloWorld");
}

#[test]
fn tagged_path_that_is_not_encoded() {
    let error = os_path::decode_path("tag,abc", "tag").unwrap_err();
    assert!(matches!(error, PathError::Encoding(_)));
    assert_eq!(error.message(), "Z85 data length (3) is not multiple of five");
}

#[test]
fn tagged_path_of_any_length_comes_back() {
    for n in 0..9u8 {
        let bytes: Vec<u8> = (0..n).map(|i| 0xf8 + i % 8).collect();
        let stored = os_path::encode_path(&OsPath::Bytes(bytes.clone()), "t");
        match os_path::decode_path(&stored, "t") {
            Ok(OsPath::Bytes(back)) => assert_eq!(back, bytes),
            Ok(OsPath::Text(text)) => assert!(n == 0 && text.is_empty()),
            Err(error) => panic!("{error:?}"),
        }
    }
}
