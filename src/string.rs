//! Modified UTF-8 text: the validator, the borrowed views `JStr` and `JStrMut`,
//! and the owned buffer `JString`.
use vstd::prelude::*;
use vstd::string::{StrSliceExecFns, StringExecFns};
use vstd::utf8::{encode_scalar, encode_utf8, encode_utf8_decode_utf8, valid_utf8};
use std::borrow::Cow;
use std::cmp::Ordering;
use crate::iter::{Bytes, Chars, JCharIndecies, JChars};
use crate::mutf8::{
    check, decode, encode, encode_char, encode_unit, first_rewrite, group3_error, high_of,
    indexed_units, is_high, is_lead3, is_valid, lemma_case_bytes, lemma_case_fold_valid,
    lemma_check_ascii_swap, lemma_encode_char_valid, lemma_encode_concat,
    lemma_encode_utf8_concat, lemma_encode_valid, lemma_surrogates_bits, lemma_utf8_agrees,
    lemma_utf8_boundary, lemma_utf8_decode, lemma_utf8_first_fault, lemma_valid_grouped, low_of,
    lower_byte, lowered, needs_rewrite, shift, unit3, units, upper_byte, uppered,
};

verus! {

/// Where and how a byte buffer fails to be Modified UTF-8.
#[derive(Clone, Copy, Debug)]
pub struct ModifiedUtf8Error {
    pos: usize,
    len: Option<usize>,
}

impl View for ModifiedUtf8Error {
    type V = (int, Option<int>);

    closed spec fn view(&self) -> (int, Option<int>) {
        (
            self.pos as int,
            match self.len {
                Some(n) => Some(n as int),
                None => None,
            },
        )
    }
}

/// The outcome of a validation, in the terms of `check`.
pub open spec fn outcome(r: Result<(), ModifiedUtf8Error>) -> Result<(), (int, Option<int>)> {
    match r {
        Ok(()) => Ok(()),
        Err(e) => Err(e@),
    }
}

impl ModifiedUtf8Error {
    fn new(pos: usize, len: Option<usize>) -> (r: ModifiedUtf8Error)
        ensures
            r@ == (pos as int, match len {
                Some(n) => Some(n as int),
                None => None,
            }),
    {
        ModifiedUtf8Error { pos, len }
    }

    /// The offset up to which the input was well formed.
    pub fn valid_up_to(&self) -> (r: usize)
        ensures
            r == self@.0,
    {
        self.pos
    }

    /// The length of the faulty sequence, or `None` where the input ended inside one.
    pub fn error_len(&self) -> (r: Option<usize>)
        ensures
            r matches Some(n) ==> self@.1 == Some(n as int),
            r is None ==> self@.1 is None,
    {
        self.len
    }
}

/// Scans `x` once, left to right, and reports the first fault of the rules of
/// Modified UTF-8.
pub fn validate_modified_utf8(x: &[u8]) -> (r: Result<(), ModifiedUtf8Error>)
    ensures
        outcome(r) == check(x@),
{
    let n = x.len();
    let mut i: usize = 0;
    // the offset of a high surrogate that still waits for its low half
    let mut pair_start: Option<usize> = None;
    assert(x@.subrange(0, n as int) =~= x@);
    while i < n
        invariant
            n == x@.len(),
            i <= n,
            pair_start is None ==> check(x@) == shift(check(x@.subrange(i as int, n as int)), i as int),
            pair_start matches Some(p) ==> {
                &&& p + 3 == i
                &&& is_lead3(x@[p as int])
                &&& group3_error(x@.subrange(p as int, n as int)) is None
                &&& is_high(unit3(x@[p as int], x@[p + 1], x@[p + 2]))
                &&& check(x@) == shift(check(x@.subrange(p as int, n as int)), p as int)
            },
        decreases n - i,
    {
        let b = x[i];
        let ghost rest = x@.subrange(i as int, n as int);
        assert(rest[0] == b);
        if let Some(p) = pair_start {
            let ghost s = x@.subrange(p as int, n as int);
            assert(s[3] == b);
            assert(s.subrange(3, s.len() as int) =~= rest);
            if !(0xe0 <= b && b <= 0xef) {
                if b >= 0xf0 {
                    return Err(ModifiedUtf8Error::new(i, Some(1)));
                }
                return Err(ModifiedUtf8Error::new(p, Some(3)));
            }
        }
        if b == 0 || (0x80 <= b && b <= 0xbf) || b >= 0xf0 {
            return Err(ModifiedUtf8Error::new(i, Some(1)));
        } else if b < 0x80 {
            assert(rest.subrange(1, rest.len() as int) =~= x@.subrange(i + 1, n as int));
            i = i + 1;
        } else if b <= 0xdf {
            if i + 1 >= n {
                return Err(ModifiedUtf8Error::new(i + 1, None));
            }
            let c = x[i + 1];
            if !(0x80 <= c && c <= 0xbf) {
                return Err(ModifiedUtf8Error::new(i, Some(2)));
            }
            assert(rest.subrange(2, rest.len() as int) =~= x@.subrange(i + 2, n as int));
            i = i + 2;
        } else {
            if i + 1 >= n {
                return Err(ModifiedUtf8Error::new(i + 1, None));
            }
            let c1 = x[i + 1];
            if !(0x80 <= c1 && c1 <= 0xbf) {
                return Err(ModifiedUtf8Error::new(i, Some(3)));
            }
            if i + 2 >= n {
                return Err(ModifiedUtf8Error::new(i + 2, None));
            }
            let c2 = x[i + 2];
            if !(0x80 <= c2 && c2 <= 0xbf) {
                return Err(ModifiedUtf8Error::new(i, Some(3)));
            }
            let val: u16 = (((b & 0x0f) as u16) << 12u16) | (((c1 & 0x3f) as u16) << 6u16) | ((
            c2 & 0x3f) as u16);
            assert(val == unit3(b, c1, c2));
            if 0xd800 <= val && val <= 0xdbff {
                if let Some(p) = pair_start {
                    return Err(ModifiedUtf8Error::new(p, Some(3)));
                }
                pair_start = Some(i);
            } else if 0xdc00 <= val && val <= 0xdfff {
                match pair_start {
                    None => {
                        return Err(ModifiedUtf8Error::new(i, Some(3)));
                    },
                    Some(p) => {
                        let ghost s = x@.subrange(p as int, n as int);
                        assert(s.subrange(6, s.len() as int) =~= x@.subrange(i + 3, n as int));
                        pair_start = None;
                    },
                }
            } else {
                if let Some(p) = pair_start {
                    return Err(ModifiedUtf8Error::new(p, Some(3)));
                }
                assert(rest.subrange(3, rest.len() as int) =~= x@.subrange(i + 3, n as int));
            }
            i = i + 3;
        }
    }
    if let Some(p) = pair_start {
        return Err(ModifiedUtf8Error::new(p, Some(3)));
    }
    Ok(())
}

/// Byte-wise lexicographic order.
pub open spec fn lex_cmp(a: Seq<u8>, b: Seq<u8>) -> Ordering
    decreases a.len(),
{
    if a.len() == 0 {
        if b.len() == 0 {
            Ordering::Equal
        } else {
            Ordering::Less
        }
    } else if b.len() == 0 {
        Ordering::Greater
    } else if a[0] < b[0] {
        Ordering::Less
    } else if a[0] > b[0] {
        Ordering::Greater
    } else {
        lex_cmp(a.drop_first(), b.drop_first())
    }
}

/// Byte-wise order says "equal" exactly of equal byte sequences.
pub proof fn lemma_lex_cmp_equal(a: Seq<u8>, b: Seq<u8>)
    ensures
        (lex_cmp(a, b) == Ordering::Equal) == (a == b),
    decreases a.len(),
{
    if a.len() > 0 && b.len() > 0 {
        lemma_lex_cmp_equal(a.drop_first(), b.drop_first());
        if a[0] == b[0] && a.drop_first() == b.drop_first() {
            assert(a =~= seq![a[0]] + a.drop_first());
            assert(b =~= seq![b[0]] + b.drop_first());
        }
        if a == b {
            assert(a.drop_first() == b.drop_first());
        }
    } else if a.len() == 0 && b.len() == 0 {
        assert(a =~= b);
    }
}

fn compare_bytes(a: &[u8], b: &[u8]) -> (r: Ordering)
    ensures
        r == lex_cmp(a@, b@),
{
    let mut i: usize = 0;
    assert(a@.subrange(0, a@.len() as int) =~= a@);
    assert(b@.subrange(0, b@.len() as int) =~= b@);
    while i < a.len() && i < b.len()
        invariant
            i <= a@.len(),
            i <= b@.len(),
            lex_cmp(a@, b@) == lex_cmp(
                a@.subrange(i as int, a@.len() as int),
                b@.subrange(i as int, b@.len() as int),
            ),
        decreases a@.len() - i,
    {
        let ghost sa = a@.subrange(i as int, a@.len() as int);
        let ghost sb = b@.subrange(i as int, b@.len() as int);
        assert(sa[0] == a@[i as int] && sb[0] == b@[i as int]);
        if a[i] < b[i] {
            return Ordering::Less;
        } else if a[i] > b[i] {
            return Ordering::Greater;
        }
        assert(sa.drop_first() =~= a@.subrange(i + 1, a@.len() as int));
        assert(sb.drop_first() =~= b@.subrange(i + 1, b@.len() as int));
        i = i + 1;
    }
    if i < a.len() {
        Ordering::Greater
    } else if i < b.len() {
        Ordering::Less
    } else {
        Ordering::Equal
    }
}

fn bytes_eq(a: &[u8], b: &[u8]) -> (r: bool)
    ensures
        r == (a@ == b@),
{
    if a.len() != b.len() {
        return false;
    }
    let mut i: usize = 0;
    while i < a.len()
        invariant
            a@.len() == b@.len(),
            i <= a@.len(),
            forall|j: int| 0 <= j < i ==> a@[j] == b@[j],
        decreases a@.len() - i,
    {
        if a[i] != b[i] {
            return false;
        }
        i = i + 1;
    }
    assert(a@ =~= b@);
    true
}

/// Relies on `std::str::from_utf8`: it succeeds exactly on UTF-8, and then
/// views the same bytes.
#[verifier::external_body]
fn utf8_str(b: &[u8]) -> (r: Option<&str>)
    ensures
        r is Some <==> valid_utf8(b@),
        r matches Some(s) ==> encode_utf8(s@) == b@,
{
    std::str::from_utf8(b).ok()
}

/// Relies on `String::push`: appends one character.
#[verifier::external_body]
fn push_char(s: &mut String, c: char)
    ensures
        final(s)@ == old(s)@.push(c),
{
    s.push(c)
}

/// The escaped form that `char::escape_debug` gives a character.
pub uninterp spec fn debug_escape_of(c: char) -> Seq<char>;

/// Relies on `char::escape_debug`: the escaped form depends on the character alone.
#[verifier::external_body]
fn escape_char(c: char) -> (r: String)
    ensures
        r@ == debug_escape_of(c),
{
    c.escape_debug().collect()
}

/// Each character of a text in its escaped form, in order.
pub open spec fn escaped(s: Seq<char>) -> Seq<char>
    decreases s.len(),
{
    if s.len() == 0 {
        seq![]
    } else {
        escaped(s.drop_last()) + debug_escape_of(s.last())
    }
}

/// A borrowed view of bytes that are Modified UTF-8.
#[derive(Clone, Copy, Debug, Hash)]
pub struct JStr<'a> {
    bytes: &'a [u8],
}

impl<'a> View for JStr<'a> {
    type V = Seq<u8>;

    closed spec fn view(&self) -> Seq<u8> {
        self.bytes@
    }
}

impl<'a> JStr<'a> {
    #[verifier::type_invariant]
    spec fn inv(&self) -> bool {
        is_valid(self.bytes@)
    }

    /// Views the UTF-8 bytes of `x` as Modified UTF-8, which works exactly
    /// where `x` holds no NUL and no scalar value above `0xffff`; otherwise the
    /// fault is the first such scalar value, where its bytes start.
    pub fn from_str(x: &'a str) -> (r: Result<JStr<'a>, ModifiedUtf8Error>)
        ensures
            r is Ok <==> forall|i: int| 0 <= i < x@.len() ==> !needs_rewrite(#[trigger] x@[i]),
            r matches Ok(s) ==> s@ == encode_utf8(x@) && s@ == encode(x@),
            r matches Err(e) ==> {
                &&& check(encode_utf8(x@)) == Err::<(), (int, Option<int>)>(e@)
                &&& e@ == (encode_utf8(x@.take(first_rewrite(x@))).len() as int, Some(1int))
                &&& needs_rewrite(x@[first_rewrite(x@)])
            },
    {
        let r = Self::from_modified_utf8(x.as_bytes());
        proof {
            if r is Ok {
                lemma_utf8_agrees(x@);
            } else {
                lemma_utf8_first_fault(x@);
            }
        }
        r
    }

    /// Validates `x` and views it.
    pub fn from_modified_utf8(x: &'a [u8]) -> (r: Result<JStr<'a>, ModifiedUtf8Error>)
        ensures
            r is Ok <==> is_valid(x@),
            r matches Ok(s) ==> s@ == x@,
            r matches Err(e) ==> check(x@) == Err::<(), (int, Option<int>)>(e@),
    {
        match validate_modified_utf8(x) {
            Ok(()) => Ok(JStr { bytes: x }),
            Err(e) => Err(e),
        }
    }

    /// Views bytes that the caller has shown to be valid.
    pub fn from_modified_utf8_unchecked(x: &'a [u8]) -> (r: JStr<'a>)
        requires
            is_valid(x@),
        ensures
            r@ == x@,
    {
        JStr { bytes: x }
    }

    /// The encoded bytes, which are valid.
    pub fn as_bytes(&self) -> (r: &'a [u8])
        ensures
            r@ == self@,
            is_valid(r@),
    {
        proof {
            use_type_invariant(self);
        }
        self.bytes
    }

    /// The number of encoded bytes.
    pub fn len(&self) -> (r: usize)
        ensures
            r == self@.len(),
    {
        self.bytes.len()
    }

    /// The bytes, one by one.
    pub fn bytes(&self) -> (r: Bytes<'a>)
        ensures
            r@ == self@,
    {
        Bytes::new(self.bytes)
    }

    /// The 16-bit code units, the halves of a surrogate pair one by one.
    pub fn jchars(&self) -> (r: JChars<'a>)
        ensures
            r.wf(),
            r@ == units(self@),
            r.rest() == self@,
    {
        proof {
            use_type_invariant(self);
            lemma_valid_grouped(self.bytes@);
        }
        JChars::new(self.bytes())
    }

    /// The 16-bit code units with the byte offsets of their groups.
    pub fn jchar_indices(&self) -> (r: JCharIndecies<'a>)
        ensures
            r.wf(),
            r@ == indexed_units(self@, 0),
    {
        JCharIndecies::new(self.jchars())
    }

    /// The scalar values, surrogate pairs recombined.
    pub fn chars(&self) -> (r: Chars<'a>)
        ensures
            r.wf(),
            r@ == decode(self@),
            r.rest() == self@,
    {
        proof {
            use_type_invariant(self);
            lemma_valid_grouped(self.bytes@);
        }
        Chars::new(self.jchars())
    }

    /// Whether every byte is below `0x80`.
    pub fn is_ascii(&self) -> (r: bool)
        ensures
            r == forall|i: int| 0 <= i < self@.len() ==> self@[i] < 0x80,
    {
        let mut i: usize = 0;
        while i < self.bytes.len()
            invariant
                i <= self@.len(),
                forall|j: int| 0 <= j < i ==> self@[j] < 0x80,
            decreases self@.len() - i,
        {
            if self.bytes[i] >= 0x80 {
                return false;
            }
            i = i + 1;
        }
        true
    }

    /// Writes the Modified UTF-8 bytes of `c` to the front of `bytes` and views them.
    pub fn encode_char<'b>(c: char, bytes: &'b mut [u8; 6]) -> (r: JStr<'b>)
        ensures
            r@ == encode_char(c),
            final(bytes)@.subrange(0, r@.len() as int) == r@,
    {
        let x = c as u32;
        proof {
            vstd::utf8::char_is_scalar(c);
            lemma_encode_char_valid(c);
        }
        let n = if x < 0x10000 {
            put_unit(x as u16, bytes, 0)
        } else {
            let high = (0xd800u32 | ((x - 0x10000) >> 10u32)) as u16;
            let low = (0xdc00u32 | ((x - 0x10000) & 0x3ff)) as u16;
            assert(high == high_of(x) && low == low_of(x));
            proof {
                lemma_surrogates_bits(x);
            }
            put_unit(high, bytes, 0);
            let ghost first = bytes@;
            put_unit(low, bytes, 3);
            assert(bytes@.subrange(0, 3) =~= first.subrange(0, 3));
            assert(bytes@.subrange(0, 6) =~= bytes@.subrange(0, 3) + bytes@.subrange(3, 6));
            6
        };
        let s: &'b [u8] = bytes.as_slice();
        let r = vstd::slice::slice_subrange(s, 0, n);
        assert(r@ =~= encode_char(c));
        JStr { bytes: r }
    }

    /// The text, borrowed where the bytes are UTF-8 already (no encoded NUL,
    /// no surrogate pair), else decoded into a new string.
    pub fn into_str(&self) -> (r: Cow<'a, str>)
        ensures
            r@ == decode(self@),
    {
        match utf8_str(self.bytes) {
            Some(s) => {
                proof {
                    use_type_invariant(self);
                    lemma_utf8_decode(s@);
                }
                Cow::Borrowed(s)
            },
            None => Cow::Owned(self.to_string()),
        }
    }

    /// The text that the bytes stand for.
    pub fn to_string(&self) -> (r: String)
        ensures
            r@ == decode(self@),
    {
        let mut out = String::new();
        let mut it = self.chars();
        loop
            invariant
                it.wf(),
                out@ + it@ == decode(self@),
            ensures
                out@ == decode(self@),
            decreases it@.len(),
        {
            match it.next() {
                Some(c) => {
                push_char(&mut out, c);
                assert(out@ + it@ =~= decode(self@));
                },
                None => {
                    assert(out@ + it@ =~= out@);
                    break;
                },
            }
        }
        out
    }

    /// The text with each character escaped as `char::escape_debug` does.
    pub fn escape_debug(&self) -> (r: String)
        ensures
            r@ == escaped(decode(self@)),
    {
        let mut out = String::new();
        let mut it = self.chars();
        let ghost text = decode(self@);
        assert(text.subrange(0, 0) =~= Seq::<char>::empty());
        loop
            invariant
                it.wf(),
                it@.len() <= text.len(),
                text.subrange(text.len() - it@.len(), text.len() as int) == it@,
                out@ == escaped(text.subrange(0, text.len() - it@.len())),
            ensures
                out@ == escaped(text),
            decreases it@.len(),
        {
            match it.next() {
                Some(c) => {
                let e = escape_char(c);
                out.append(e.as_str());
                let ghost done = text.subrange(0, text.len() - it@.len());
                assert(done.drop_last() =~= text.subrange(0, text.len() - it@.len() - 1));
                },
                None => {
                    assert(text.subrange(0, text.len() as int) =~= text);
                    break;
                },
            }
        }
        out
    }

    /// The text quoted and escaped, as a debug rendering.
    pub fn to_debug_string(&self) -> (r: String)
        ensures
            r@ == seq!['"'] + escaped(decode(self@)) + seq!['"'],
    {
        let mut out = String::new();
        push_char(&mut out, '"');
        let inner = self.escape_debug();
        out.append(inner.as_str());
        push_char(&mut out, '"');
        out
    }

    /// Converts any text to Modified UTF-8; this never fails. Where its UTF-8
    /// bytes already are valid they are borrowed; else NUL is rewritten as
    /// `0xc0 0x80` and each scalar value above `0xffff` as a surrogate pair.
    pub fn from_utf8_str(st: &'a str) -> (r: JCow<'a>)
        ensures
            r@ == encode(st@),
    {
        match Self::from_str(st) {
            Ok(s) => JCow::Borrowed(s),
            Err(e) => JCow::Owned(JString::repair(st, e)),
        }
    }

    /// A copy of the bytes in a buffer of its own.
    pub fn to_owned(&self) -> (r: JString)
        ensures
            r@ == self@,
    {
        proof {
            use_type_invariant(self);
        }
        JString { bytes: vstd::slice::slice_to_vec(self.bytes) }
    }
}

fn lower_in_place(x: &mut [u8])
    ensures
        final(x)@ == lowered(old(x)@),
{
    let n = x.len();
    let mut i: usize = 0;
    while i < n
        invariant
            n == x@.len() == old(x)@.len(),
            i <= n,
            forall|j: int| 0 <= j < i ==> x@[j] == lower_byte(old(x)@[j]),
            forall|j: int| i <= j < n ==> x@[j] == old(x)@[j],
        decreases n - i,
    {
        let b = x[i];
        if 0x40 < b && b < 0x5b {
            x[i] = b | 0x20;
        }
        i = i + 1;
    }
    assert(x@ =~= lowered(old(x)@));
}

fn upper_in_place(x: &mut [u8])
    ensures
        final(x)@ == uppered(old(x)@),
{
    let n = x.len();
    let mut i: usize = 0;
    while i < n
        invariant
            n == x@.len() == old(x)@.len(),
            i <= n,
            forall|j: int| 0 <= j < i ==> x@[j] == upper_byte(old(x)@[j]),
            forall|j: int| i <= j < n ==> x@[j] == old(x)@[j],
        decreases n - i,
    {
        let b = x[i];
        if 0x60 < b && b < 0x7b {
            x[i] = b & 0xdf;
        }
        i = i + 1;
    }
    assert(x@ =~= uppered(old(x)@));
}

/// Writes the bytes of one code unit at `at`; returns how many.
fn put_unit(u: u16, buf: &mut [u8; 6], at: usize) -> (k: usize)
    requires
        at <= 3,
    ensures
        k == encode_unit(u).len(),
        final(buf)@.len() == 6,
        final(buf)@.subrange(at as int, at + k) == encode_unit(u),
        final(buf)@.subrange(0, at as int) == old(buf)@.subrange(0, at as int),
{
    if 1 <= u && u < 0x80 {
        buf[at] = u as u8;
        assert(buf@.subrange(at as int, at + 1) =~= encode_unit(u));
        assert(buf@.subrange(0, at as int) =~= old(buf)@.subrange(0, at as int));
        1
    } else if u < 0x800 {
        buf[at] = (0xc0u16 | (u >> 6u16)) as u8;
        buf[at + 1] = (0x80u16 | (u & 0x3f)) as u8;
        assert(buf@.subrange(at as int, at + 2) =~= encode_unit(u));
        assert(buf@.subrange(0, at as int) =~= old(buf)@.subrange(0, at as int));
        2
    } else {
        buf[at] = (0xe0u16 | (u >> 12u16)) as u8;
        buf[at + 1] = (0x80u16 | ((u >> 6u16) & 0x3f)) as u8;
        buf[at + 2] = (0x80u16 | (u & 0x3f)) as u8;
        assert(buf@.subrange(at as int, at + 3) =~= encode_unit(u));
        assert(buf@.subrange(0, at as int) =~= old(buf)@.subrange(0, at as int));
        3
    }
}

impl<'a> PartialEq for JStr<'a> {
    fn eq(&self, other: &JStr<'a>) -> bool {
        bytes_eq(self.bytes, other.bytes)
    }
}

impl<'a> vstd::std_specs::cmp::PartialEqSpecImpl for JStr<'a> {
    open spec fn obeys_eq_spec() -> bool {
        true
    }

    open spec fn eq_spec(&self, other: &JStr<'a>) -> bool {
        self@ == other@
    }
}

impl<'a> Eq for JStr<'a> {
}

impl<'a> PartialOrd for JStr<'a> {
    fn partial_cmp(&self, other: &JStr<'a>) -> Option<Ordering> {
        Some(compare_bytes(self.bytes, other.bytes))
    }
}

impl<'a> vstd::std_specs::cmp::PartialOrdSpecImpl for JStr<'a> {
    open spec fn obeys_partial_cmp_spec() -> bool {
        true
    }

    open spec fn partial_cmp_spec(&self, other: &JStr<'a>) -> Option<Ordering> {
        Some(lex_cmp(self@, other@))
    }
}

/// A mutable borrowed view of bytes that are Modified UTF-8; it allows only
/// changes that keep them valid.
pub struct JStrMut<'a> {
    bytes: &'a mut [u8],
}

impl<'a> View for JStrMut<'a> {
    type V = Seq<u8>;

    closed spec fn view(&self) -> Seq<u8> {
        self.bytes@
    }
}

impl<'a> JStrMut<'a> {
    #[verifier::type_invariant]
    spec fn inv(&self) -> bool {
        is_valid(self.bytes@)
    }

    /// Validates `x` and views it.
    pub fn from_modified_utf8_mut(x: &'a mut [u8]) -> (r: Result<JStrMut<'a>, ModifiedUtf8Error>)
        ensures
            r is Ok <==> is_valid(old(x)@),
            r matches Ok(s) ==> s@ == old(x)@,
            r matches Err(e) ==> check(old(x)@) == Err::<(), (int, Option<int>)>(e@) && final(x)@ == old(x)@,
    {
        match validate_modified_utf8(x) {
            Ok(()) => Ok(JStrMut { bytes: x }),
            Err(e) => Err(e),
        }
    }

    /// Views bytes that the caller has shown to be valid.
    pub fn from_modified_utf8_unchecked_mut(x: &'a mut [u8]) -> (r: JStrMut<'a>)
        requires
            is_valid(old(x)@),
        ensures
            r@ == old(x)@,
    {
        JStrMut { bytes: x }
    }

    /// A shared view of the same bytes.
    pub fn as_jstr(&self) -> (r: JStr<'_>)
        ensures
            r@ == self@,
    {
        proof {
            use_type_invariant(self);
        }
        JStr { bytes: &*self.bytes }
    }

    /// Lower-cases the ASCII letters in place; no other byte changes.
    pub fn make_ascii_lowercase(&mut self)
        ensures
            final(self)@ == lowered(old(self)@),
    {
        proof {
            use_type_invariant(&*self);
        }
        let n = self.bytes.len();
        let mut i: usize = 0;
        while i < n
            invariant
                n == self@.len() == old(self)@.len(),
                i <= n,
                is_valid(self@),
                forall|j: int| 0 <= j < i ==> self@[j] == lower_byte(old(self)@[j]),
                forall|j: int| i <= j < n ==> self@[j] == old(self)@[j],
            decreases n - i,
        {
            let b = self.bytes[i];
            if 0x40 < b && b < 0x5b {
                proof {
                    lemma_case_bytes(b);
                    lemma_check_ascii_swap(self@, self@.update(i as int, b | 0x20));
                }
                self.bytes[i] = b | 0x20;
            }
            i = i + 1;
        }
        assert(self@ =~= lowered(old(self)@));
    }

    /// Upper-cases the ASCII letters in place; no other byte changes.
    pub fn make_ascii_uppercase(&mut self)
        ensures
            final(self)@ == uppered(old(self)@),
    {
        proof {
            use_type_invariant(&*self);
        }
        let n = self.bytes.len();
        let mut i: usize = 0;
        while i < n
            invariant
                n == self@.len() == old(self)@.len(),
                i <= n,
                is_valid(self@),
                forall|j: int| 0 <= j < i ==> self@[j] == upper_byte(old(self)@[j]),
                forall|j: int| i <= j < n ==> self@[j] == old(self)@[j],
            decreases n - i,
        {
            let b = self.bytes[i];
            if 0x60 < b && b < 0x7b {
                proof {
                    lemma_case_bytes(b);
                    lemma_check_ascii_swap(self@, self@.update(i as int, b & 0xdf));
                }
                self.bytes[i] = b & 0xdf;
            }
            i = i + 1;
        }
        assert(self@ =~= uppered(old(self)@));
    }
}

/// Bytes that failed validation, handed back with the fault.
#[derive(Debug)]
pub struct FromModifiedUtf8Error {
    err: ModifiedUtf8Error,
    vec: Vec<u8>,
}

impl FromModifiedUtf8Error {
    pub closed spec fn error(&self) -> ModifiedUtf8Error {
        self.err
    }

    pub closed spec fn bytes_view(&self) -> Seq<u8> {
        self.vec@
    }

    pub fn as_bytes(&self) -> (r: &[u8])
        ensures
            r@ == self.bytes_view(),
    {
        self.vec.as_slice()
    }

    pub fn into_bytes(self) -> (r: Vec<u8>)
        ensures
            r@ == self.bytes_view(),
    {
        self.vec
    }

    pub fn modified_utf8_error(&self) -> (r: ModifiedUtf8Error)
        ensures
            r == self.error(),
    {
        self.err
    }
}

/// An owned buffer of Modified UTF-8.
#[derive(Debug, Hash)]
pub struct JString {
    bytes: Vec<u8>,
}

impl View for JString {
    type V = Seq<u8>;

    closed spec fn view(&self) -> Seq<u8> {
        self.bytes@
    }
}

impl JString {
    #[verifier::type_invariant]
    spec fn inv(&self) -> bool {
        is_valid(self.bytes@)
    }

    /// Validates `vec` and takes it over; on failure hands it back with the fault.
    pub fn from_modified_utf8(vec: Vec<u8>) -> (r: Result<JString, FromModifiedUtf8Error>)
        ensures
            r is Ok <==> is_valid(vec@),
            r matches Ok(s) ==> s@ == vec@,
            r matches Err(e) ==> check(vec@) == Err::<(), (int, Option<int>)>(e.error()@) && e.bytes_view() == vec@,
    {
        match validate_modified_utf8(vec.as_slice()) {
            Ok(()) => Ok(JString { bytes: vec }),
            Err(err) => Err(FromModifiedUtf8Error { err, vec }),
        }
    }

    /// Takes over bytes that the caller has shown to be valid.
    pub fn from_modified_utf8_unchecked(vec: Vec<u8>) -> (r: JString)
        requires
            is_valid(vec@),
        ensures
            r@ == vec@,
    {
        JString { bytes: vec }
    }

    /// The Modified UTF-8 bytes of a text whose UTF-8 bytes failed validation
    /// with `first`: each valid span is copied, and each scalar value at a fault
    /// (NUL, or one above `0xffff`) is re-encoded, until the rest validates.
    fn repair(st: &str, first: ModifiedUtf8Error) -> (r: JString)
        requires
            check(encode_utf8(st@)) == Err::<(), (int, Option<int>)>(first@),
        ensures
            r@ == encode(st@),
    {
        let mut vec: Vec<u8> = Vec::new();
        let mut rest: &str = st;
        let mut fault = first;
        let mut buf = [0u8; 6];
        assert(vec@ + encode(rest@) =~= encode(st@));
        loop
            invariant_except_break
                check(encode_utf8(rest@)) == Err::<(), (int, Option<int>)>(fault@),
                vec@ + encode(rest@) == encode(st@),
            ensures
                vec@ == encode(st@),
            decreases rest@.len(),
        {
            let ghost s = rest@;
            let ghost i = first_rewrite(s);
            proof {
                lemma_utf8_first_fault(s);
                lemma_utf8_boundary(s, i);
                assert(s =~= s.take(i) + s.skip(i));
                lemma_encode_utf8_concat(s.take(i), s.skip(i));
            }
            let (prefix, tail) = rest.split_at(fault.valid_up_to());
            proof {
                encode_utf8_decode_utf8(prefix@);
                encode_utf8_decode_utf8(s.take(i));
                encode_utf8_decode_utf8(tail@);
                encode_utf8_decode_utf8(s.skip(i));
                assert(encode_utf8(s.take(i)) =~= encode_utf8(s).subrange(0, fault@.0));
                assert(encode_utf8(s.skip(i)) =~= encode_utf8(s).subrange(
                    fault@.0,
                    encode_utf8(s).len() as int,
                ));
                lemma_utf8_agrees(prefix@);
            }
            vec.extend_from_slice(prefix.as_bytes());
            let c = tail.get_char(0);
            vec.extend_from_slice(JStr::encode_char(c, &mut buf).as_bytes());
            // a NUL takes one byte in UTF-8, a scalar value above 0xffff four
            let k: usize = if c as u32 == 0 {
                1
            } else {
                4
            };
            proof {
                let t = tail@;
                vstd::utf8::char_is_scalar(c);
                lemma_utf8_boundary(t, 1);
                assert(t.take(1) =~= seq![c]);
                assert(seq![c].drop_first() =~= Seq::<char>::empty());
                assert(encode_utf8(seq![c].drop_first()) =~= Seq::<u8>::empty());
                assert(encode_utf8(seq![c]) =~= encode_scalar(c as u32));
                assert(t =~= t.take(1) + t.skip(1));
                lemma_encode_utf8_concat(t.take(1), t.skip(1));
            }
            let (_, after) = tail.split_at(k);
            proof {
                let t = tail@;
                encode_utf8_decode_utf8(after@);
                encode_utf8_decode_utf8(t.skip(1));
                assert(encode_utf8(t.skip(1)) =~= encode_utf8(t).subrange(
                    k as int,
                    encode_utf8(t).len() as int,
                ));
                assert(s =~= s.take(i) + (seq![c] + after@));
                lemma_encode_concat(s.take(i), seq![c] + after@);
                lemma_encode_concat(seq![c], after@);
                assert(encode(seq![c]) =~= encode_char(c)) by {
                    assert(seq![c].drop_first() =~= Seq::<char>::empty());
                }
                assert(vec@ + encode(after@) =~= encode(st@));
            }
            rest = after;
            match validate_modified_utf8(rest.as_bytes()) {
                Ok(()) => {
                    proof {
                        lemma_utf8_agrees(rest@);
                    }
                    vec.extend_from_slice(rest.as_bytes());
                    assert(vec@ =~= encode(st@));
                    break ;
                },
                Err(e) => {
                    fault = e;
                },
            }
        }
        proof {
            lemma_encode_valid(st@);
        }
        JString { bytes: vec }
    }

    /// A view of the bytes.
    pub fn as_jstr(&self) -> (r: JStr<'_>)
        ensures
            r@ == self@,
    {
        proof {
            use_type_invariant(self);
        }
        JStr { bytes: self.bytes.as_slice() }
    }

    /// The 16-bit code units, surrogate pairs left split.
    pub fn encode_utf16(&self) -> (r: Vec<u16>)
        ensures
            r@ == units(self@),
    {
        let mut out: Vec<u16> = Vec::new();
        let mut it = self.as_jstr().jchars();
        loop
            invariant
                it.wf(),
                out@ + it@ == units(self@),
            ensures
                out@ == units(self@),
            decreases it@.len(),
        {
            match it.next() {
                Some(u) => {
                out.push(u);
                assert(out@ + it@ =~= units(self@));
                },
                None => {
                    assert(out@ + it@ =~= out@);
                    break;
                },
            }
        }
        out
    }

    /// Lower-cases the ASCII letters in place; no other byte changes.
    pub fn make_ascii_lowercase(&mut self)
        ensures
            final(self)@ == lowered(old(self)@),
    {
        proof {
            use_type_invariant(&*self);
            lemma_case_fold_valid(self@);
        }
        // the buffer is moved out (leaving an empty, valid one) while it is folded
        let mut bytes: Vec<u8> = Vec::new();
        core::mem::swap(&mut self.bytes, &mut bytes);
        lower_in_place(bytes.as_mut_slice());
        core::mem::swap(&mut self.bytes, &mut bytes);
    }

    /// Upper-cases the ASCII letters in place; no other byte changes.
    pub fn make_ascii_uppercase(&mut self)
        ensures
            final(self)@ == uppered(old(self)@),
    {
        proof {
            use_type_invariant(&*self);
            lemma_case_fold_valid(self@);
        }
        // the buffer is moved out (leaving an empty, valid one) while it is folded
        let mut bytes: Vec<u8> = Vec::new();
        core::mem::swap(&mut self.bytes, &mut bytes);
        upper_in_place(bytes.as_mut_slice());
        core::mem::swap(&mut self.bytes, &mut bytes);
    }
}

impl Clone for JString {
    fn clone(&self) -> (r: JString)
        ensures
            r@ == self@,
    {
        self.as_jstr().to_owned()
    }
}

impl PartialEq for JString {
    fn eq(&self, other: &JString) -> bool {
        bytes_eq(self.bytes.as_slice(), other.bytes.as_slice())
    }
}

impl vstd::std_specs::cmp::PartialEqSpecImpl for JString {
    open spec fn obeys_eq_spec() -> bool {
        true
    }

    open spec fn eq_spec(&self, other: &JString) -> bool {
        self@ == other@
    }
}

impl Eq for JString {
}

impl PartialOrd for JString {
    fn partial_cmp(&self, other: &JString) -> Option<Ordering> {
        Some(compare_bytes(self.bytes.as_slice(), other.bytes.as_slice()))
    }
}

impl vstd::std_specs::cmp::PartialOrdSpecImpl for JString {
    open spec fn obeys_partial_cmp_spec() -> bool {
        true
    }

    open spec fn partial_cmp_spec(&self, other: &JString) -> Option<Ordering> {
        Some(lex_cmp(self@, other@))
    }
}

/// Modified UTF-8 that is either borrowed from its source or owned.
pub enum JCow<'a> {
    Borrowed(JStr<'a>),
    Owned(JString),
}

impl<'a> View for JCow<'a> {
    type V = Seq<u8>;

    open spec fn view(&self) -> Seq<u8> {
        match self {
            JCow::Borrowed(s) => s@,
            JCow::Owned(s) => s@,
        }
    }
}

impl<'a> JCow<'a> {
    /// A view of the bytes, wherever they are.
    pub fn as_jstr(&self) -> (r: JStr<'_>)
        ensures
            r@ == self@,
    {
        match self {
            JCow::Borrowed(s) => *s,
            JCow::Owned(s) => s.as_jstr(),
        }
    }

    /// The bytes in a buffer of their own, copied where they were borrowed.
    pub fn into_owned(self) -> (r: JString)
        ensures
            r@ == self@,
    {
        match self {
            JCow::Borrowed(s) => s.to_owned(),
            JCow::Owned(s) => s,
        }
    }
}

} // verus!
