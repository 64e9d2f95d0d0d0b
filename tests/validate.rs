use classfile::string::{validate_modified_utf8, JStr, JString, ModifiedUtf8Error};

fn fault(bytes: &[u8]) -> (usize, Option<usize>) {
    let e: ModifiedUtf8Error = validate_modified_utf8(bytes).unwrap_err();
    (e.valid_up_to(), e.error_len())
}

#[test]
fn accepts_plain_and_encoded_text() {
    assert!(validate_modified_utf8(b"").is_ok());
    assert!(validate_modified_utf8(b"java/lang/Object").is_ok());
    assert!(validate_modified_utf8(&[0xc0, 0x80]).is_ok());
    assert!(validate_modified_utf8(&[0xc3, 0xa9, 0xe2, 0x82, 0xac]).is_ok());
    assert!(validate_modified_utf8(&[0xed, 0xa0, 0xbd, 0xed, 0xb8, 0x80, 0x41]).is_ok());
}

#[test]
fn literal_nul_is_rejected_at_its_offset() {
    assert_eq!(fault(&[0x00]), (0, Some(1)));
    assert_eq!(fault(&[0x41, 0x42, 0x00]), (2, Some(1)));
}

#[test]
fn truncated_lead_bytes_report_unknown_length() {
    assert_eq!(fault(&[0xe0]), (1, None));
    assert_eq!(fault(&[0xc0]), (1, None));
    assert_eq!(fault(&[0xe2, 0x82]), (2, None));
}

#[test]
fn four_byte_leads_are_always_rejected() {
    assert_eq!(fault(&[0xf0, 0x9f, 0x98, 0x80]), (0, Some(1)));
    assert_eq!(fault(&[0x41, 0xf0, 0x80, 0x80, 0x80]), (1, Some(1)));
    assert_eq!(fault(&[0x41, 0xff]), (1, Some(1)));
    assert_eq!(fault(&[0xc3, 0xa9, 0xf8]), (2, Some(1)));
}

#[test]
fn stray_continuation_byte_is_rejected() {
    assert_eq!(fault(&[0x80]), (0, Some(1)));
    assert_eq!(fault(&[0x41, 0xbf]), (1, Some(1)));
}

#[test]
fn bad_continuation_in_two_byte_group() {
    assert_eq!(fault(&[0xc3, 0x41]), (0, Some(2)));
}

#[test]
fn bad_continuation_in_three_byte_group() {
    assert_eq!(fault(&[0xe2, 0x41, 0x41]), (0, Some(3)));
    assert_eq!(fault(&[0x41, 0xe2, 0x82, 0x41]), (1, Some(3)));
}

#[test]
fn unpaired_high_surrogate_is_the_fault() {
    assert_eq!(fault(&[0xed, 0xa0, 0xbd]), (0, Some(3)));
    assert_eq!(fault(&[0xed, 0xa0, 0xbd, 0x41]), (0, Some(3)));
    assert_eq!(fault(&[0xed, 0xa0, 0xbd, 0x00]), (0, Some(3)));
    assert_eq!(fault(&[0xed, 0xa0, 0xbd, 0xc3, 0xa9]), (0, Some(3)));
    assert_eq!(fault(&[0xed, 0xa0, 0xbd, 0xed, 0xa0, 0xbd]), (0, Some(3)));
    assert_eq!(fault(&[0xed, 0xa0, 0xbd, 0xe2, 0x82, 0xac]), (0, Some(3)));
}

#[test]
fn wide_lead_after_high_surrogate_is_reported_itself() {
    assert_eq!(fault(&[0xed, 0xa0, 0xbd, 0xf0]), (3, Some(1)));
}

#[test]
fn lone_low_surrogate_is_rejected() {
    assert_eq!(fault(&[0xed, 0xb8, 0x80]), (0, Some(3)));
    assert_eq!(fault(&[0x41, 0xed, 0xb8, 0x80]), (1, Some(3)));
}

#[test]
fn jstr_construction_follows_validation() {
    let ok = JStr::from_modified_utf8(b"abc").unwrap();
    assert_eq!(ok.as_bytes(), b"abc");
    assert_eq!(ok.len(), 3);
    let e = JStr::from_modified_utf8(&[0x61, 0x00]).unwrap_err();
    assert_eq!((e.valid_up_to(), e.error_len()), (1, Some(1)));
    assert!(JStr::from_str("plain").is_ok());
    let e = JStr::from_str("a\u{0}b").unwrap_err();
    assert_eq!((e.valid_up_to(), e.error_len()), (1, Some(1)));
    let e = JStr::from_str("ab\u{1F600}").unwrap_err();
    assert_eq!((e.valid_up_to(), e.error_len()), (2, Some(1)));
}

#[test]
fn jstring_hands_back_rejected_bytes() {
    let err = JString::from_modified_utf8(vec![0x61, 0xe2, 0x82]).unwrap_err();
    assert_eq!(err.as_bytes(), &[0x61, 0xe2, 0x82]);
    let e = err.modified_utf8_error();
    assert_eq!((e.valid_up_to(), e.error_len()), (3, None));
    assert_eq!(err.into_bytes(), vec![0x61, 0xe2, 0x82]);
    let ok = JString::from_modified_utf8(vec![0xc0, 0x80]).unwrap();
    assert_eq!(ok.as_jstr().as_bytes(), &[0xc0, 0x80]);
}

#[test]
fn unchecked_constructors_view_the_bytes() {
    let j = JStr::from_modified_utf8_unchecked(&[0x61, 0xc0, 0x80]);
    assert_eq!(j.to_string(), "a\u{0}");
    let s = JString::from_modified_utf8_unchecked(vec![0xc3, 0xa9]);
    assert_eq!(s.as_jstr().to_string(), "\u{e9}");
    assert_eq!(s.as_jstr().to_owned().encode_utf16(), vec![0xe9]);
}
