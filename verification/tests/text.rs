use patronus::text::{static_cstr, CText};

#[test]
fn host_text_crosses_unless_it_holds_a_zero_byte() {
    let text = CText::from_str("caf\u{e9}").unwrap();
    assert_eq!(text.as_bytes(), "caf\u{e9}".as_bytes());
    assert_eq!(text.len(), 5);
    assert!(CText::from_str("a\0b").is_none());
    assert!(CText::from_str("").is_some());
}

#[test]
fn bytes_cross_unless_one_is_zero() {
    assert!(CText::from_bytes(vec![1, 2, 3]).is_some());
    assert!(CText::from_bytes(vec![1, 0, 3]).is_none());
    assert!(CText::from_bytes(vec![0]).is_none());
    assert_eq!(CText::from_bytes(Vec::new()).unwrap().len(), 0);
}

#[test]
fn zero_terminated_text_ends_at_its_first_zero() {
    assert_eq!(CText::until_zero(b"abc\0def\0").as_bytes(), b"abc");
    assert_eq!(CText::until_zero(b"abc").as_bytes(), b"abc");
    assert_eq!(CText::until_zero(b"\0abc").as_bytes(), b"");
    assert_eq!(CText::until_zero(b"").as_bytes(), b"");
    assert_eq!(static_cstr("Sample checker").as_bytes(), b"Sample checker");
    assert_eq!(static_cstr("cut\0here").as_bytes(), b"cut");
}

#[test]
fn valid_text_decodes_to_itself() {
    let text = CText::from_str("na\u{ef}ve \u{1f600}").unwrap();
    assert_eq!(text.to_string_lossy(), "na\u{ef}ve \u{1f600}");
}

#[test]
fn malformed_text_decodes_with_replacements() {
    let text = CText::from_bytes(vec![b'a', 0xff, b'b']).unwrap();
    assert_eq!(text.to_string_lossy(), "a\u{fffd}b");
    let cut = CText::from_bytes(vec![b'o', b'k', 0xe2, 0x82]).unwrap();
    assert_eq!(cut.to_string_lossy(), "ok\u{fffd}");
}
