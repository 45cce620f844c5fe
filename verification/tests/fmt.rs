use astr::{AStr, AStrError, FmtBuilder};

#[test]
fn test_from_fmt() {
    let empty = AStr::<0>::try_from_fmt("").unwrap();
    assert_eq!(empty.as_str(), "");

    let salmon = 0xFA8072u32;
    let salmon_str = AStr::<6>::try_from_fmt(format!("{salmon:06X}")).unwrap();
    assert_eq!(salmon_str.as_str(), "FA8072")
}

#[test]
fn test_from_fmt_err() {
    let too_short = AStr::<16>::try_from_fmt("hello");
    assert!(too_short.is_err());

    let too_long = AStr::<8>::try_from_fmt("hello world");
    assert!(too_long.is_err());
}

#[test]
fn test_from_fmt_err_details() {
    let too_short = AStr::<16>::try_from_fmt("hello");
    assert!(matches!(too_short, Err(AStrError::LengthMismatch { expected: 16, actual: 5 })));

    let too_long = AStr::<8>::try_from_fmt("hello world");
    assert!(matches!(too_long, Err(AStrError::LengthMismatch { expected: 8, actual: 11 })));
}

#[test]
fn test_builder_exact_fit() {
    let mut b = FmtBuilder::<5>::new();
    b.write_str("hel").unwrap();
    b.write_str("lo").unwrap();
    let s = b.finalize().unwrap();
    assert_eq!(s.as_str(), "hello");
}

#[test]
fn test_builder_too_short() {
    let mut b = FmtBuilder::<5>::new();
    b.write_str("hi").unwrap();
    let r = b.finalize();
    assert!(matches!(r, Err(AStrError::LengthMismatch { expected: 5, actual: 2 })));
}

#[test]
fn test_builder_overrun() {
    let mut b = FmtBuilder::<4>::new();
    let r = b.write_str("hello");
    assert!(matches!(r, Err(AStrError::CapacityExceeded { capacity: 4, attempted: 5 })));

    // once failed, a fitting write is still refused, and so is finalizing
    let r = b.write_str("hi");
    assert!(r.is_err());
    let r = b.finalize();
    assert!(matches!(r, Err(AStrError::LengthMismatch { expected: 4, actual: 0 })));
}

#[test]
fn test_builder_multibyte() {
    let mut b = FmtBuilder::<4>::new();
    b.write_str("a\u{e4}").unwrap();
    b.write_str("b").unwrap();
    let s = b.finalize().unwrap();
    assert_eq!(s.as_str(), "a\u{e4}b");
}
