use classfile::string::{validate_modified_utf8, JCow, JStr, JStrMut, JString};
use std::borrow::Cow;
use std::cmp::Ordering;
use std::collections::hash_map::DefaultHasher;
use std::hash::{Hash, Hasher};

fn hash_of<T: Hash>(t: &T) -> u64 {
    let mut h = DefaultHasher::new();
    t.hash(&mut h);
    h.finish()
}

#[test]
fn encode_nul_gives_two_bytes() {
    let mut buf = [0u8; 6];
    let j = JStr::encode_char('\0', &mut buf);
    assert_eq!(j.as_bytes(), &[0xc0, 0x80]);
}

#[test]
fn decode_two_byte_nul() {
    let j = JStr::from_modified_utf8(&[0xc0, 0x80]).unwrap();
    let mut it = j.chars();
    assert_eq!(it.next(), Some('\0'));
    assert_eq!(it.next(), None);
}

#[test]
fn encode_each_width() {
    let mut buf = [0u8; 6];
    assert_eq!(JStr::encode_char('A', &mut buf).as_bytes(), &[0x41]);
    assert_eq!(JStr::encode_char('\u{e9}', &mut buf).as_bytes(), &[0xc3, 0xa9]);
    assert_eq!(JStr::encode_char('\u{20ac}', &mut buf).as_bytes(), &[0xe2, 0x82, 0xac]);
}

#[test]
fn surrogate_pair_round_trip() {
    let mut buf = [0u8; 6];
    let j = JStr::encode_char('\u{1F600}', &mut buf);
    assert_eq!(j.as_bytes(), &[0xed, 0xa0, 0xbd, 0xed, 0xb8, 0x80]);
    let mut chars = j.chars();
    assert_eq!(chars.next(), Some('\u{1F600}'));
    assert_eq!(chars.next(), None);
    let mut units = j.jchars();
    assert_eq!(units.next(), Some(0xd83d));
    assert_eq!(units.next(), Some(0xde00));
    assert_eq!(units.next(), None);
}

#[test]
fn lossy_round_trip() {
    for s in ["", "plain", "a\u{0}b", "caf\u{e9} \u{20ac}", "x\u{1F600}y\u{0}", "\u{10FFFF}"] {
        let j = JStr::from_utf8_str(s);
        assert_eq!(j.as_jstr().to_string(), s);
        assert_eq!(&*j.as_jstr().into_str(), s);
    }
}

#[test]
fn lossy_output_is_valid() {
    for s in ["a\u{0}b", "\u{1F600}\u{1F600}", "\u{0}", "mixed \u{e9}\u{0}\u{10400}"] {
        let j = JStr::from_utf8_str(s);
        assert!(validate_modified_utf8(j.as_jstr().as_bytes()).is_ok());
    }
}

#[test]
fn lossy_conversion_borrows_when_it_can() {
    assert!(matches!(JStr::from_utf8_str("no rewrite"), JCow::Borrowed(_)));
    let j = JStr::from_utf8_str("a\u{0}\u{1F600}");
    assert!(matches!(j, JCow::Owned(_)));
    assert_eq!(j.as_jstr().as_bytes(), &[0x61, 0xc0, 0x80, 0xed, 0xa0, 0xbd, 0xed, 0xb8, 0x80]);
    let owned = j.into_owned();
    assert_eq!(owned.as_jstr().as_bytes().len(), 9);
}

#[test]
fn into_str_borrows_plain_utf8() {
    let j = JStr::from_modified_utf8("caf\u{e9}".as_bytes()).unwrap();
    assert!(matches!(j.into_str(), Cow::Borrowed("caf\u{e9}")));
    let k = JStr::from_modified_utf8(&[0x61, 0xc0, 0x80]).unwrap();
    let s = k.into_str();
    assert!(matches!(s, Cow::Owned(_)));
    assert_eq!(&*s, "a\u{0}");
}

#[test]
fn to_string_decodes_pairs_and_nul() {
    let j = JStr::from_modified_utf8(&[0x78, 0xed, 0xa0, 0xbd, 0xed, 0xb8, 0x80, 0xc0, 0x80]).unwrap();
    assert_eq!(j.to_string(), "x\u{1F600}\u{0}");
}

#[test]
fn escape_and_debug_rendering() {
    let j = JStr::from_modified_utf8(b"a\nb\t\"").unwrap();
    assert_eq!(j.escape_debug(), "a\\nb\\t\\\"");
    assert_eq!(j.to_debug_string(), "\"a\\nb\\t\\\"\"");
    let n = JStr::from_modified_utf8(&[0xc0, 0x80]).unwrap();
    assert_eq!(n.to_debug_string(), "\"\\0\"");
}

#[test]
fn is_ascii_checks_every_byte() {
    assert!(JStr::from_modified_utf8(b"abc").unwrap().is_ascii());
    assert!(!JStr::from_modified_utf8(&[0x61, 0xc3, 0xa9]).unwrap().is_ascii());
}

#[test]
fn case_folding_leaves_multibyte_groups_alone() {
    let bytes = vec![0x61, 0x42, 0xe2, 0x82, 0xac, 0x63, 0x44];
    let mut s = JString::from_modified_utf8(bytes).unwrap();
    s.make_ascii_lowercase();
    assert_eq!(s.as_jstr().as_bytes(), &[0x61, 0x62, 0xe2, 0x82, 0xac, 0x63, 0x64]);
    s.make_ascii_uppercase();
    assert_eq!(s.as_jstr().as_bytes(), &[0x41, 0x42, 0xe2, 0x82, 0xac, 0x43, 0x44]);
}

#[test]
fn case_folding_through_mutable_view() {
    let mut buf = [0x5a, 0xc3, 0x89, 0x40, 0x5b, 0x7a];
    {
        let mut v = JStrMut::from_modified_utf8_mut(&mut buf).unwrap();
        v.make_ascii_lowercase();
        assert_eq!(v.as_jstr().as_bytes(), &[0x7a, 0xc3, 0x89, 0x40, 0x5b, 0x7a]);
        v.make_ascii_uppercase();
    }
    assert_eq!(buf, [0x5a, 0xc3, 0x89, 0x40, 0x5b, 0x5a]);
    let mut bad = [0x00];
    assert!(JStrMut::from_modified_utf8_mut(&mut bad).is_err());
}

#[test]
fn equal_bytes_compare_and_hash_equal() {
    let a_buf = vec![0x61, 0xc3, 0xa9];
    let b_buf = vec![0x61, 0xc3, 0xa9];
    let a = JStr::from_modified_utf8(&a_buf).unwrap();
    let b = JStr::from_modified_utf8(&b_buf).unwrap();
    assert!(a == b);
    assert_eq!(hash_of(&a), hash_of(&b));
    let sa = a.to_owned();
    let sb = JString::from_modified_utf8(b_buf.clone()).unwrap();
    assert!(sa == sb);
    assert_eq!(hash_of(&sa), hash_of(&sb));
    assert!(sa.clone() == sa);
}

#[test]
fn order_is_bytewise() {
    let x = JStr::from_modified_utf8(b"abc").unwrap();
    let y = JStr::from_modified_utf8(b"abd").unwrap();
    let z = JStr::from_modified_utf8(b"ab").unwrap();
    assert_eq!(x.partial_cmp(&y), Some(Ordering::Less));
    assert_eq!(z.partial_cmp(&x), Some(Ordering::Less));
    assert_eq!(x.partial_cmp(&x), Some(Ordering::Equal));
    assert!(y > x);
    let n = JStr::from_modified_utf8(&[0xc0, 0x80]).unwrap();
    let e = JStr::from_modified_utf8(&[0xc3, 0xa9]).unwrap();
    assert!(n < e);
    assert!(x != y);
    let ox = x.to_owned();
    let oy = y.to_owned();
    assert_eq!(ox.partial_cmp(&oy), Some(Ordering::Less));
}
