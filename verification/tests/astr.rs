use astr::{valid_input, AStr, AStrError};

#[test]
fn test_const() {
    let test_str = AStr::<4>::from_str_ref("test");
    assert_eq!(test_str.as_str(), "test");
}

#[test]
fn test_a() {
    let s = AStr::<5>::from_str_ref("hello");

    assert_eq!(s.len(), 5);
    assert_eq!(s.as_str(), "hello");
}

#[test]
fn test_macro_expr() {
    const SOURCE: &str = "Hello, world!";
    let s = AStr::<13>::from_str_ref(SOURCE);

    assert_eq!(s.as_str(), SOURCE);
}

#[test]
fn test_index() {
    let s = AStr::<11>::from_str_ref("hello world");

    assert_eq!(s.index(0, 5), "hello");
}

#[test]
fn test_to_string() {
    let s = AStr::<5>::from_str_ref("hello");

    assert_eq!(s.to_string(), "hello");
}

#[test]
fn test_from_string() {
    const S: &str = "hello";
    let s = AStr::<5>::from_str_ref(S);

    assert_eq!(s.to_string(), "hello");
}

#[test]
fn test_concat() {
    let a = AStr::<5>::from_str_ref("hello");
    let b = AStr::<6>::from_str_ref(" world");
    let s: AStr<11> = a.concat(&b);

    assert_eq!(s.as_str(), "hello world");
}

#[test]
fn test_round_trip_from_slice() {
    let t = "gr\u{fc}\u{df}e";
    let s = AStr::<7>::try_from_utf8(t.as_bytes()).unwrap();
    assert_eq!(s.as_str(), t);
    assert_eq!(s.as_slice(), t.as_bytes());
    assert_eq!(s.as_bytes(), t.as_bytes());
}

#[test]
fn test_repeat_ascii() {
    let s = AStr::<5>::repeat('a');
    assert_eq!(s.as_str(), "aaaaa");
}

#[test]
fn test_repeat_multibyte() {
    let s = AStr::<20>::repeat('\u{e4}');
    assert_eq!(s.as_str(), "\u{e4}\u{e4}\u{e4}\u{e4}\u{e4}\u{e4}\u{e4}\u{e4}\u{e4}\u{e4}");
}

#[test]
fn test_repeat_byte() {
    let s = AStr::<3>::repeat_byte(b'x');
    assert_eq!(s.as_str(), "xxx");
}

#[test]
fn test_encoder() {
    assert_eq!(astr::char_utf8_len('a'), 1);
    assert_eq!(astr::char_utf8_len('\u{e4}'), 2);
    assert_eq!(astr::char_utf8_len('\u{20ac}'), 3);
    assert_eq!(astr::char_utf8_len('\u{1d11e}'), 4);
    assert_eq!(astr::encode_utf8_raw('a'), [0x61, 0, 0, 0]);
    assert_eq!(astr::encode_utf8_raw('\u{e4}'), [0xC3, 0xA4, 0, 0]);
    assert_eq!(astr::encode_utf8_raw('\u{20ac}'), [0xE2, 0x82, 0xAC, 0]);
    assert_eq!(astr::encode_utf8_raw('\u{1d11e}'), [0xF0, 0x9D, 0x84, 0x9E]);
}

#[test]
fn test_invalid_utf8_rejected() {
    // a stray continuation byte
    let r = AStr::<4>::try_from_utf8(&[0x80, 0x61, 0x61, 0x61]);
    assert!(matches!(r, Err(AStrError::Utf8 { valid_up_to: 0 })));

    // an overlong two-byte encoding of '/'
    let r = AStr::<2>::try_from_utf8(&[0xC0, 0xAF]);
    assert!(matches!(r, Err(AStrError::Utf8 { valid_up_to: 0 })));

    // an encoded surrogate
    let r = AStr::<3>::try_from_utf8(&[0xED, 0xA0, 0x80]);
    assert!(matches!(r, Err(AStrError::Utf8 { valid_up_to: 0 })));

    // a truncated two-byte sequence
    let r = AStr::<2>::try_from_utf8(&[0x61, 0xC3]);
    assert!(matches!(r, Err(AStrError::Utf8 { valid_up_to: 1 })));

    // an overlong three-byte encoding
    let r = AStr::<3>::try_from_utf8(&[0xE0, 0x9F, 0x80]);
    assert!(matches!(r, Err(AStrError::Utf8 { valid_up_to: 0 })));

    // an overlong four-byte encoding
    let r = AStr::<4>::try_from_utf8(&[0xF0, 0x8F, 0x80, 0x80]);
    assert!(matches!(r, Err(AStrError::Utf8 { valid_up_to: 0 })));

    // a codepoint past the last Unicode scalar
    let r = AStr::<4>::try_from_utf8(&[0xF4, 0x90, 0x80, 0x80]);
    assert!(matches!(r, Err(AStrError::Utf8 { valid_up_to: 0 })));

    // a leading byte that can start no scalar at all
    let r = AStr::<4>::try_from_utf8(&[0xF5, 0x80, 0x80, 0x80]);
    assert!(matches!(r, Err(AStrError::Utf8 { valid_up_to: 0 })));

    // the error reports the offset of the first bad sequence
    let r = AStr::<5>::try_from_utf8(&[0x61, 0x62, 0xFF, 0x63, 0x64]);
    assert!(matches!(r, Err(AStrError::Utf8 { valid_up_to: 2 })));

    // the array-sized constructor rejects the same inputs
    let r = AStr::<3>::try_from_utf8_array_ref(&[0xED, 0xA0, 0x80]);
    assert!(matches!(r, Err(AStrError::Utf8 { valid_up_to: 0 })));
}

#[test]
fn test_valid_multibyte_bytes_accepted() {
    let s = AStr::<3>::try_from_utf8_array_ref(&[0xE2, 0x82, 0xAC]).unwrap();
    assert_eq!(s.as_str(), "\u{20ac}");

    let s = AStr::<2>::try_from_utf8(&[0xC3, 0xA4]).unwrap();
    assert_eq!(s.as_str(), "\u{e4}");
}

#[test]
fn test_length_mismatch() {
    let r = AStr::<4>::try_from_utf8(b"hello");
    assert!(matches!(r, Err(AStrError::LengthMismatch { expected: 4, actual: 5 })));

    let r = AStr::<7>::try_from_str_ref("hi");
    assert!(matches!(r, Err(AStrError::LengthMismatch { expected: 7, actual: 2 })));
}

#[test]
fn test_get_matches_dynamic_text() {
    let s = AStr::<4>::from_str_ref("a\u{e4}b");
    let d = String::from("a\u{e4}b");

    // in-range slices agree with slicing the equivalent dynamic text
    assert_eq!(s.get(1, 3), d.get(1..3));
    assert_eq!(s.get(0, 4), d.get(0..4));
    assert_eq!(s.get(2, 2), d.get(2..2));

    // a range that splits the two-byte character fails for both
    assert_eq!(d.get(1..2), None);
    assert_eq!(s.get(1, 2), None);

    // out-of-order and out-of-bounds ranges fail for both
    assert_eq!(d.get(3..1), None);
    assert_eq!(s.get(3, 1), None);
    assert_eq!(d.get(0..5), None);
    assert_eq!(s.get(0, 5), None);
}

#[test]
fn test_eq() {
    let a = AStr::<2>::from_str_ref("ab");
    let b = AStr::<2>::from_str_ref("ab");
    let c = AStr::<2>::from_str_ref("ba");
    assert_eq!(a, b);
    assert_ne!(a, c);
}

#[test]
fn test_default() {
    let s = AStr::<0>::default();
    assert_eq!(s.len(), 0);
    assert_eq!(s.as_str(), "");
}

#[test]
fn test_valid_input() {
    assert_eq!(valid_input("abc"), "abc");
    let s = AStr::<2>::from_str_ref("ok");
    assert_eq!(valid_input(s).as_str(), "ok");
}

#[test]
fn test_unchecked_from_bytes() {
    let s = AStr::<5>::from_utf8(b"bytes");
    assert_eq!(s.as_str(), "bytes");

    let s = AStr::<5>::from_utf8_unchecked(b"bytes");
    assert_eq!(s.as_str(), "bytes");

    let s = AStr::<5>::from_utf8_array_unchecked(*b"array");
    assert_eq!(s.as_str(), "array");
}
