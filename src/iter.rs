//! The three layered decoders over a Modified UTF-8 view: its bytes, its 16-bit
//! code units, and its scalar values.
use vstd::prelude::*;
use crate::mutf8::{
    group_len, group_ok, group_unit, grouped, indexed_units, is_high, is_low, lemma_pair_scalar_range,
    pair_scalar,
    paired, scalars, units,
};

verus! {

/// The bytes of a view, taken from either end.
pub struct Bytes<'a> {
    bytes: &'a [u8],
    front: usize,
    back: usize,
}

impl<'a> View for Bytes<'a> {
    type V = Seq<u8>;

    /// The bytes not yet taken.
    closed spec fn view(&self) -> Seq<u8> {
        self.bytes@.subrange(self.front as int, self.back as int)
    }
}

impl<'a> Bytes<'a> {
    #[verifier::type_invariant]
    spec fn inv(&self) -> bool {
        &&& self.front <= self.back <= self.bytes@.len()
        &&& self.bytes@.len() <= usize::MAX
    }

    pub(crate) fn new(bytes: &'a [u8]) -> (r: Bytes<'a>)
        ensures
            r@ == bytes@,
    {
        let r = Bytes { bytes, front: 0, back: bytes.len() };
        assert(r@ =~= bytes@);
        r
    }

    /// Takes the first byte left.
    pub fn next(&mut self) -> (r: Option<u8>)
        ensures
            old(self)@.len() == 0 ==> r is None && final(self)@ == old(self)@,
            old(self)@.len() > 0 ==> r == Some(old(self)@[0]) && final(self)@ == old(self)@.drop_first(),
    {
        proof {
            use_type_invariant(&*self);
        }
        if self.front < self.back {
            let b = self.bytes[self.front];
            self.front = self.front + 1;
            assert(self@ =~= old(self)@.drop_first());
            Some(b)
        } else {
            None
        }
    }

    /// Takes the last byte left.
    pub fn next_back(&mut self) -> (r: Option<u8>)
        ensures
            old(self)@.len() == 0 ==> r is None && final(self)@ == old(self)@,
            old(self)@.len() > 0 ==> r == Some(old(self)@.last()) && final(self)@ == old(self)@.drop_last(),
    {
        proof {
            use_type_invariant(&*self);
        }
        if self.front < self.back {
            self.back = self.back - 1;
            assert(self@ =~= old(self)@.drop_last());
            Some(self.bytes[self.back])
        } else {
            None
        }
    }

    /// Skips `n` bytes and takes the next one.
    pub fn nth(&mut self, n: usize) -> (r: Option<u8>)
        ensures
            n < old(self)@.len() ==> r == Some(old(self)@[n as int]) && final(self)@ == old(self)@.subrange(n + 1, old(self)@.len() as int),
            n >= old(self)@.len() ==> r is None && final(self)@.len() == 0,
    {
        proof {
            use_type_invariant(&*self);
        }
        if n < self.back - self.front {
            let b = self.bytes[self.front + n];
            self.front = self.front + n + 1;
            assert(self@ =~= old(self)@.subrange(n + 1, old(self)@.len() as int));
            Some(b)
        } else {
            self.front = self.back;
            None
        }
    }

    /// Skips `n` bytes from the back and takes the one before them.
    pub fn nth_back(&mut self, n: usize) -> (r: Option<u8>)
        ensures
            n < old(self)@.len() ==> r == Some(old(self)@[old(self)@.len() - 1 - n]) && final(self)@ == old(self)@.subrange(0, old(self)@.len() - 1 - n),
            n >= old(self)@.len() ==> r is None && final(self)@.len() == 0,
    {
        proof {
            use_type_invariant(&*self);
        }
        if n < self.back - self.front {
            self.back = self.back - n - 1;
            assert(self@ =~= old(self)@.subrange(0, old(self)@.len() - 1 - n));
            Some(self.bytes[self.back])
        } else {
            self.back = self.front;
            None
        }
    }

    /// The number of bytes left.
    pub fn len(&self) -> (r: usize)
        ensures
            r == self@.len(),
    {
        proof {
            use_type_invariant(self);
        }
        self.back - self.front
    }

    /// The exact number of bytes left, as lower and upper bound.
    pub fn size_hint(&self) -> (r: (usize, Option<usize>))
        ensures
            r.0 == self@.len(),
            r.1 == Some(r.0),
    {
        let n = self.len();
        (n, Some(n))
    }

    /// The number of bytes left.
    pub fn count(self) -> (r: usize)
        ensures
            r == self@.len(),
    {
        self.len()
    }

    /// The last byte left.
    pub fn last(self) -> (r: Option<u8>)
        ensures
            self@.len() == 0 ==> r is None,
            self@.len() > 0 ==> r == Some(self@.last()),
    {
        let mut it = self;
        it.next_back()
    }
}

/// A run of whole groups has between a third of its length and its length in code units.
proof fn lemma_units_len(b: Seq<u8>)
    requires
        grouped(b),
    ensures
        b.len() / 3 <= units(b).len() <= b.len(),
    decreases b.len(),
{
    if b.len() > 0 {
        lemma_units_len(b.subrange(group_len(b[0]), b.len() as int));
    }
}

/// A sequence of paired code units has between half its length and its length in scalar values.
proof fn lemma_scalars_len(u: Seq<u16>)
    requires
        paired(u),
    ensures
        u.len() / 2 <= scalars(u).len() <= u.len(),
    decreases u.len(),
{
    if u.len() > 0 {
        if is_high(u[0]) {
            lemma_scalars_len(u.subrange(2, u.len() as int));
        } else {
            lemma_scalars_len(u.subrange(1, u.len() as int));
        }
    }
}

/// The 16-bit code units of a view; the halves of a surrogate pair come one by one.
pub struct JChars<'a> {
    inner: Bytes<'a>,
}

impl<'a> View for JChars<'a> {
    type V = Seq<u16>;

    /// The code units not yet taken.
    closed spec fn view(&self) -> Seq<u16> {
        units(self.inner@)
    }
}

impl<'a> JChars<'a> {
    /// The bytes left are whole groups.
    pub closed spec fn wf(&self) -> bool {
        grouped(self.inner@)
    }

    /// The bytes not yet decoded.
    pub closed spec fn rest(&self) -> Seq<u8> {
        self.inner@
    }

    pub(crate) fn new(inner: Bytes<'a>) -> (r: JChars<'a>)
        requires
            grouped(inner@),
        ensures
            r.wf(),
            r.rest() == inner@,
            r@ == units(inner@),
    {
        JChars { inner }
    }

    /// Decodes the next group into its code unit.
    pub fn next(&mut self) -> (r: Option<u16>)
        requires
            old(self).wf(),
        ensures
            final(self).wf(),
            old(self)@.len() == 0 ==> r is None && final(self)@ == old(self)@ && final(self).rest()
                == old(self).rest(),
            old(self)@.len() > 0 ==> {
                &&& r == Some(old(self)@[0])
                &&& final(self)@ == old(self)@.drop_first()
                &&& final(self).rest() == old(self).rest().subrange(
                    group_len(old(self).rest()[0]),
                    old(self).rest().len() as int,
                )
            },
    {
        let ghost b = self.inner@;
        let first = match self.inner.next() {
            Some(first) => first,
            None => {
                return None;
            },
        };
        assert(group_ok(b));
        let ghost k = group_len(first);
        let ghost rest = b.subrange(k, b.len() as int);
        assert(units(b) =~= seq![group_unit(b)] + units(rest));
        if first < 0x80 {
            assert(self.inner@ =~= rest);
            Some(first as u16)
        } else if first < 0xe0 {
            let next = match self.inner.next() {
                Some(next) => next,
                None => {
                    return None;
                },
            };
            assert(self.inner@ =~= rest);
            Some((((first & 0x1f) as u16) << 6u16) | ((next & 0x3f) as u16))
        } else {
            let next1 = match self.inner.next() {
                Some(next) => next,
                None => {
                    return None;
                },
            };
            let next2 = match self.inner.next() {
                Some(next) => next,
                None => {
                    return None;
                },
            };
            assert(self.inner@ =~= rest);
            Some(
                (((first & 0x0f) as u16) << 12u16) | (((next1 & 0x3f) as u16) << 6u16) | ((next2
                    & 0x3f) as u16),
            )
        }
    }

    /// The number of bytes not yet decoded.
    pub fn byte_len(&self) -> (r: usize)
        ensures
            r == self.rest().len(),
    {
        self.inner.len()
    }

    /// Bounds on the code units left: at least a third of the bytes left (each
    /// unit takes at most three bytes) and at most all of them.
    pub fn size_hint(&self) -> (r: (usize, Option<usize>))
        requires
            self.wf(),
        ensures
            r.0 == self.rest().len() / 3,
            r.1 == Some(self.rest().len() as usize),
            r.0 <= self@.len() <= self.rest().len(),
    {
        proof {
            lemma_units_len(self.inner@);
        }
        let n = self.inner.len();
        (n / 3, Some(n))
    }
}

/// The code units of a view, each with the byte offset of its group.
pub struct JCharIndecies<'a> {
    inner: JChars<'a>,
    pos: usize,
}

impl<'a> View for JCharIndecies<'a> {
    type V = Seq<(usize, u16)>;

    closed spec fn view(&self) -> Seq<(usize, u16)> {
        indexed_units(self.inner.rest(), self.pos as int)
    }
}

impl<'a> JCharIndecies<'a> {
    /// The offsets to come fit in a `usize`.
    pub closed spec fn wf(&self) -> bool {
        &&& self.inner.wf()
        &&& self.pos + self.inner.rest().len() <= usize::MAX
    }

    pub(crate) fn new(inner: JChars<'a>) -> (r: JCharIndecies<'a>)
        requires
            inner.wf(),
        ensures
            r.wf(),
            r@ == indexed_units(inner.rest(), 0),
    {
        proof {
            use_type_invariant(&inner.inner);
        }
        JCharIndecies { inner, pos: 0 }
    }

    /// Decodes the next group into its offset and code unit.
    pub fn next(&mut self) -> (r: Option<(usize, u16)>)
        requires
            old(self).wf(),
        ensures
            final(self).wf(),
            old(self)@.len() == 0 ==> r is None && final(self)@ == old(self)@,
            old(self)@.len() > 0 ==> r == Some(old(self)@[0]) && final(self)@ == old(self)@.drop_first(),
    {
        let ghost b = self.inner.rest();
        let before = self.inner.byte_len();
        let unit = match self.inner.next() {
            Some(unit) => unit,
            None => {
                return None;
            },
        };
        let after = self.inner.byte_len();
        let p = self.pos;
        self.pos = p + (before - after);
        let ghost rest = b.subrange(group_len(b[0]), b.len() as int);
        assert(indexed_units(b, p as int) =~= seq![(p, group_unit(b))] + indexed_units(
            rest,
            p + group_len(b[0]),
        ));
        Some((p, unit))
    }
}

/// Relies on `char::from_u32`: `Some` exactly for Unicode scalar values.
#[verifier::external_body]
fn char_from_u32(v: u32) -> (r: Option<char>)
    ensures
        vstd::utf8::is_scalar(v) ==> r == Some(v as char),
        !vstd::utf8::is_scalar(v) ==> r is None,
{
    char::from_u32(v)
}

/// The scalar values of a view, surrogate pairs recombined.
pub struct Chars<'a> {
    inner: JChars<'a>,
}

impl<'a> View for Chars<'a> {
    type V = Seq<char>;

    /// The scalar values not yet taken.
    closed spec fn view(&self) -> Seq<char> {
        scalars(self.inner@)
    }
}

impl<'a> Chars<'a> {
    /// The code units left are whole groups and pair up.
    pub closed spec fn wf(&self) -> bool {
        &&& self.inner.wf()
        &&& paired(self.inner@)
    }

    /// The bytes not yet decoded.
    pub closed spec fn rest(&self) -> Seq<u8> {
        self.inner.rest()
    }

    pub(crate) fn new(inner: JChars<'a>) -> (r: Chars<'a>)
        requires
            inner.wf(),
            paired(inner@),
        ensures
            r.wf(),
            r@ == scalars(inner@),
            r.rest() == inner.rest(),
    {
        Chars { inner }
    }

    /// Decodes the next scalar value, taking both halves of a surrogate pair.
    pub fn next(&mut self) -> (r: Option<char>)
        requires
            old(self).wf(),
        ensures
            final(self).wf(),
            old(self)@.len() == 0 ==> r is None && final(self)@ == old(self)@,
            old(self)@.len() > 0 ==> r == Some(old(self)@[0]) && final(self)@ == old(self)@.drop_first(),
    {
        let ghost u = self.inner@;
        let first = match self.inner.next() {
            Some(first) => first,
            None => {
                return None;
            },
        };
        if 0xd800 <= first && first <= 0xdbff {
            let second = match self.inner.next() {
                Some(second) => second,
                None => {
                    return None;
                },
            };
            assert(self.inner@ =~= u.subrange(2, u.len() as int));
            assert(is_low(second));
            assert((((first & 0x3ff) as u32) << 10u32) <= 0xffc00 && ((second & 0x3ff) as u32)
                <= 0x3ff) by (bit_vector);
            let val: u32 = 0x10000u32 + (((first & 0x3ff) as u32) << 10u32) + ((second
                & 0x3ff) as u32);
            assert(val == pair_scalar(first, second));
            proof {
                lemma_pair_scalar_range(first, second);
            }
            char_from_u32(val)
        } else {
            assert(self.inner@ =~= u.subrange(1, u.len() as int));
            assert(!is_low(first));
            char_from_u32(first as u32)
        }
    }

    /// Bounds on the scalar values left: at least a sixth of the bytes left, at most all of them.
    pub fn size_hint(&self) -> (r: (usize, Option<usize>))
        requires
            self.wf(),
        ensures
            r.0 == self.rest().len() / 3 / 2,
            r.1 == Some(self.rest().len() as usize),
            r.0 <= self@.len() <= self.rest().len(),
    {
        proof {
            lemma_units_len(self.inner.inner@);
            lemma_scalars_len(self.inner@);
        }
        let (lo, hi) = self.inner.size_hint();
        (lo / 2, hi)
    }
}

} // verus!
