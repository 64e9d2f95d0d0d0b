use classfile::string::{JStr, JString};

#[test]
fn bytes_from_both_ends() {
    let j = JStr::from_modified_utf8(b"abcde").unwrap();
    let mut b = j.bytes();
    assert_eq!(b.len(), 5);
    assert_eq!(b.size_hint(), (5, Some(5)));
    assert_eq!(b.next(), Some(b'a'));
    assert_eq!(b.next_back(), Some(b'e'));
    assert_eq!(b.nth(1), Some(b'c'));
    assert_eq!(b.len(), 1);
    assert_eq!(b.nth_back(0), Some(b'd'));
    assert_eq!(b.next(), None);
    assert_eq!(b.next_back(), None);
    assert_eq!(j.bytes().count(), 5);
    assert_eq!(j.bytes().last(), Some(b'e'));
    let mut c = j.bytes();
    assert_eq!(c.nth(9), None);
    assert_eq!(c.len(), 0);
    let mut d = j.bytes();
    assert_eq!(d.nth_back(1), Some(b'd'));
    assert_eq!(d.next_back(), Some(b'c'));
}

#[test]
fn code_units_of_each_width() {
    let j = JStr::from_modified_utf8(&[0x61, 0xc3, 0xa9, 0xe2, 0x82, 0xac, 0xc0, 0x80]).unwrap();
    let mut u = j.jchars();
    assert_eq!(u.size_hint(), (2, Some(8)));
    let mut all = Vec::new();
    while let Some(x) = u.next() {
        all.push(x);
    }
    assert_eq!(all, vec![0x61, 0xe9, 0x20ac, 0x0]);
}

#[test]
fn code_units_with_offsets() {
    let j = JStr::from_modified_utf8(&[0x61, 0xc3, 0xa9, 0xe2, 0x82, 0xac]).unwrap();
    let mut it = j.jchar_indices();
    assert_eq!(it.next(), Some((0, 0x61)));
    assert_eq!(it.next(), Some((1, 0xe9)));
    assert_eq!(it.next(), Some((3, 0x20ac)));
    assert_eq!(it.next(), None);
}

#[test]
fn scalars_of_each_width() {
    let j = JStr::from_modified_utf8(&[0x61, 0xc3, 0xa9, 0xe2, 0x82, 0xac, 0xed, 0xa0, 0x81, 0xed, 0xb0, 0x80]).unwrap();
    let mut c = j.chars();
    assert_eq!(c.size_hint(), (2, Some(12)));
    let mut all = String::new();
    while let Some(x) = c.next() {
        all.push(x);
    }
    assert_eq!(all, "a\u{e9}\u{20ac}\u{10400}");
}

#[test]
fn utf16_of_owned_buffer() {
    let s = JString::from_modified_utf8(vec![0x41, 0xed, 0xa0, 0xbd, 0xed, 0xb8, 0x80]).unwrap();
    assert_eq!(s.encode_utf16(), vec![0x41, 0xd83d, 0xde00]);
}
