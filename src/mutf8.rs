//! The mathematical model of Modified UTF-8: byte classes, the validation
//! rules, decoding to 16-bit code units and to scalar values, and encoding.
use vstd::prelude::*;
use vstd::utf8::{
    encode_scalar, encode_utf8, is_char_boundary, pop_first_scalar, last_continuation_byte, leading_byte_width_1, leading_byte_width_2,
    leading_byte_width_3, leading_byte_width_4, second_last_continuation_byte,
};

verus! {

/// A continuation byte, `10xxxxxx`.
pub open spec fn is_cont(b: u8) -> bool {
    0x80 <= b <= 0xbf
}

/// The lead byte of a two-byte group, `110xxxxx`.
pub open spec fn is_lead2(b: u8) -> bool {
    0xc0 <= b <= 0xdf
}

/// The lead byte of a three-byte group, `1110xxxx`.
pub open spec fn is_lead3(b: u8) -> bool {
    0xe0 <= b <= 0xef
}

/// A high (leading) surrogate code unit.
pub open spec fn is_high(u: u16) -> bool {
    0xd800 <= u <= 0xdbff
}

/// A low (trailing) surrogate code unit.
pub open spec fn is_low(u: u16) -> bool {
    0xdc00 <= u <= 0xdfff
}

/// The code unit carried by a two-byte group.
pub open spec fn unit2(b0: u8, b1: u8) -> u16 {
    (((b0 & 0x1f) as u16) << 6u16) | ((b1 & 0x3f) as u16)
}

/// The code unit carried by a three-byte group.
pub open spec fn unit3(b0: u8, b1: u8, b2: u8) -> u16 {
    (((b0 & 0x0f) as u16) << 12u16) | (((b1 & 0x3f) as u16) << 6u16) | ((b2 & 0x3f) as u16)
}

/// The scalar value that a high and a low surrogate stand for together.
pub open spec fn pair_scalar(high: u16, low: u16) -> u32 {
    (0x10000u32 + (((high & 0x3ff) as u32) << 10u32) + ((low & 0x3ff) as u32)) as u32
}

/// A validation outcome: `Err((p, l))` reports that the bytes are well formed up
/// to offset `p`, and that the faulty sequence there is `l` bytes long, or, with
/// `None`, that the input ended inside a sequence.
pub open spec fn shift(r: Result<(), (int, Option<int>)>, k: int) -> Result<(), (int, Option<int>)> {
    match r {
        Ok(()) => Ok(()),
        Err((p, l)) => Err((p + k, l)),
    }
}

/// The structural fault, if any, of the three-byte group that `b` starts with
/// (its lead byte is taken as given).
pub open spec fn group3_error(b: Seq<u8>) -> Option<(int, Option<int>)> {
    if b.len() < 2 {
        Some((1, None))
    } else if !is_cont(b[1]) {
        Some((0, Some(3)))
    } else if b.len() < 3 {
        Some((2, None))
    } else if !is_cont(b[2]) {
        Some((0, Some(3)))
    } else {
        None
    }
}

/// The rules of Modified UTF-8, read left to right, with the first fault reported.
///
/// A literal NUL byte, a stray continuation byte and a byte `0xf0..=0xff` are
/// faults of length 1; a two-byte group needs one continuation byte and a
/// three-byte group two. A high surrogate must be followed at once by a
/// three-byte low surrogate; otherwise the high surrogate is the fault (length
/// 3), except before a byte `0xf0..=0xff` or a malformed three-byte group, which
/// are reported themselves. A low surrogate without a high one is a fault of
/// length 3.
pub open spec fn check(b: Seq<u8>) -> Result<(), (int, Option<int>)>
    decreases b.len(),
{
    if b.len() == 0 {
        Ok(())
    } else if b[0] == 0 || is_cont(b[0]) || b[0] >= 0xf0 {
        Err((0, Some(1)))
    } else if b[0] < 0x80 {
        shift(check(b.subrange(1, b.len() as int)), 1)
    } else if is_lead2(b[0]) {
        if b.len() < 2 {
            Err((1, None))
        } else if !is_cont(b[1]) {
            Err((0, Some(2)))
        } else {
            shift(check(b.subrange(2, b.len() as int)), 2)
        }
    } else if group3_error(b) is Some {
        Err(group3_error(b)->0)
    } else if is_low(unit3(b[0], b[1], b[2])) {
        Err((0, Some(3)))
    } else if !is_high(unit3(b[0], b[1], b[2])) {
        shift(check(b.subrange(3, b.len() as int)), 3)
    } else if b.len() == 3 {
        Err((0, Some(3)))
    } else if b[3] >= 0xf0 {
        Err((3, Some(1)))
    } else if !is_lead3(b[3]) {
        Err((0, Some(3)))
    } else if group3_error(b.subrange(3, b.len() as int)) is Some {
        shift(Err(group3_error(b.subrange(3, b.len() as int))->0), 3)
    } else if !is_low(unit3(b[3], b[4], b[5])) {
        Err((0, Some(3)))
    } else {
        shift(check(b.subrange(6, b.len() as int)), 6)
    }
}

/// Well-formed Modified UTF-8.
pub open spec fn is_valid(b: Seq<u8>) -> bool {
    check(b) is Ok
}

/// The length of the group that a lead byte opens.
pub open spec fn group_len(b0: u8) -> int {
    if b0 < 0x80 {
        1
    } else if b0 < 0xe0 {
        2
    } else {
        3
    }
}

/// `b` starts with a complete group: a non-NUL ASCII byte, or a two- or
/// three-byte lead byte with its continuation bytes.
pub open spec fn group_ok(b: Seq<u8>) -> bool {
    &&& b.len() >= 1
    &&& {
        ||| (1 <= b[0] < 0x80)
        ||| (is_lead2(b[0]) && b.len() >= 2 && is_cont(b[1]))
        ||| (is_lead3(b[0]) && b.len() >= 3 && is_cont(b[1]) && is_cont(b[2]))
    }
}

/// The code unit of the group that `b` starts with.
pub open spec fn group_unit(b: Seq<u8>) -> u16 {
    if b[0] < 0x80 {
        b[0] as u16
    } else if b[0] < 0xe0 {
        unit2(b[0], b[1])
    } else {
        unit3(b[0], b[1], b[2])
    }
}

/// `b` is a sequence of complete groups.
pub open spec fn grouped(b: Seq<u8>) -> bool
    decreases b.len(),
{
    b.len() == 0 || (group_ok(b) && grouped(b.subrange(group_len(b[0]), b.len() as int)))
}

/// The code units that the groups of `b` carry, one per group.
pub open spec fn units(b: Seq<u8>) -> Seq<u16>
    decreases b.len(),
{
    if b.len() == 0 || !group_ok(b) {
        seq![]
    } else {
        seq![group_unit(b)] + units(b.subrange(group_len(b[0]), b.len() as int))
    }
}

/// The code units of `b`, each with the offset of its group, offsets counted from `base`.
pub open spec fn indexed_units(b: Seq<u8>, base: int) -> Seq<(usize, u16)>
    decreases b.len(),
{
    if b.len() == 0 || !group_ok(b) {
        seq![]
    } else {
        seq![(base as usize, group_unit(b))] + indexed_units(
            b.subrange(group_len(b[0]), b.len() as int),
            base + group_len(b[0]),
        )
    }
}

/// Every high surrogate is followed by a low one, and no low surrogate stands alone.
pub open spec fn paired(u: Seq<u16>) -> bool
    decreases u.len(),
{
    if u.len() == 0 {
        true
    } else if is_high(u[0]) {
        u.len() >= 2 && is_low(u[1]) && paired(u.subrange(2, u.len() as int))
    } else {
        !is_low(u[0]) && paired(u.subrange(1, u.len() as int))
    }
}

/// The scalar values of a code-unit sequence, surrogate pairs recombined.
pub open spec fn scalars(u: Seq<u16>) -> Seq<char>
    decreases u.len(),
{
    if u.len() == 0 {
        seq![]
    } else if is_high(u[0]) && u.len() >= 2 {
        seq![pair_scalar(u[0], u[1]) as char] + scalars(u.subrange(2, u.len() as int))
    } else {
        seq![(u[0] as u32) as char] + scalars(u.subrange(1, u.len() as int))
    }
}

/// The text that Modified UTF-8 bytes stand for.
pub open spec fn decode(b: Seq<u8>) -> Seq<char> {
    scalars(units(b))
}

/// The bytes of one code unit: one byte for `1..0x80`, two below `0x800`
/// (so NUL becomes `0xc0 0x80`), three above.
pub open spec fn encode_unit(u: u16) -> Seq<u8> {
    if 1 <= u < 0x80 {
        seq![u as u8]
    } else if u < 0x800 {
        seq![(0xc0u16 | (u >> 6u16)) as u8, (0x80u16 | (u & 0x3f)) as u8]
    } else {
        seq![
            (0xe0u16 | (u >> 12u16)) as u8,
            (0x80u16 | ((u >> 6u16) & 0x3f)) as u8,
            (0x80u16 | (u & 0x3f)) as u8,
        ]
    }
}

/// The high surrogate of a scalar value above `0xffff`.
pub open spec fn high_of(v: u32) -> u16 {
    (0xd800u32 | ((v - 0x10000) as u32 >> 10u32)) as u16
}

/// The low surrogate of a scalar value above `0xffff`.
pub open spec fn low_of(v: u32) -> u16 {
    (0xdc00u32 | ((v - 0x10000) as u32 & 0x3ff)) as u16
}

/// The code units of one scalar value.
pub open spec fn char_units(c: char) -> Seq<u16> {
    if (c as u32) < 0x10000 {
        seq![(c as u32) as u16]
    } else {
        seq![high_of(c as u32), low_of(c as u32)]
    }
}

/// The Modified UTF-8 bytes of one scalar value: 1, 2, 3 or 6 bytes.
pub open spec fn encode_char(c: char) -> Seq<u8> {
    if (c as u32) < 0x10000 {
        encode_unit((c as u32) as u16)
    } else {
        encode_unit(high_of(c as u32)) + encode_unit(low_of(c as u32))
    }
}

/// The Modified UTF-8 bytes of a text.
pub open spec fn encode(s: Seq<char>) -> Seq<u8>
    decreases s.len(),
{
    if s.len() == 0 {
        seq![]
    } else {
        encode_char(s[0]) + encode(s.drop_first())
    }
}

/// A two-byte group carries a unit below `0x800`.
proof fn lemma_unit2_range(b0: u8, b1: u8)
    by (bit_vector)
    ensures
        unit2(b0, b1) < 0x800,
{
}

/// The two bytes of a unit below `0x800` form a group that carries it.
proof fn lemma_encode_unit2_bits(u: u16)
    by (bit_vector)
    requires
        u < 0x800,
    ensures
        0xc0 <= ((0xc0u16 | (u >> 6u16)) as u8) <= 0xdf,
        0x80 <= ((0x80u16 | (u & 0x3f)) as u8) <= 0xbf,
        unit2((0xc0u16 | (u >> 6u16)) as u8, (0x80u16 | (u & 0x3f)) as u8) == u,
{
}

/// The three bytes of a unit form a group that carries it.
proof fn lemma_encode_unit3_bits(u: u16)
    by (bit_vector)
    ensures
        0xe0 <= ((0xe0u16 | (u >> 12u16)) as u8) <= 0xef,
        0x80 <= ((0x80u16 | ((u >> 6u16) & 0x3f)) as u8) <= 0xbf,
        0x80 <= ((0x80u16 | (u & 0x3f)) as u8) <= 0xbf,
        unit3(
            (0xe0u16 | (u >> 12u16)) as u8,
            (0x80u16 | ((u >> 6u16) & 0x3f)) as u8,
            (0x80u16 | (u & 0x3f)) as u8,
        ) == u,
{
}

/// A scalar value above `0xffff` splits into a high and a low surrogate that
/// recombine into it.
pub proof fn lemma_surrogates_bits(v: u32)
    by (bit_vector)
    requires
        0x10000 <= v <= 0x10ffff,
    ensures
        0xd800 <= high_of(v) <= 0xdbff,
        0xdc00 <= low_of(v) <= 0xdfff,
        pair_scalar(high_of(v), low_of(v)) == v,
{
}

/// A surrogate pair stands for a scalar value in `0x10000..=0x10ffff`.
pub proof fn lemma_pair_scalar_range(high: u16, low: u16)
    by (bit_vector)
    requires
        0xd800 <= high <= 0xdbff,
        0xdc00 <= low <= 0xdfff,
    ensures
        0x10000 <= pair_scalar(high, low) <= 0x10ffff,
{
}

/// The bytes of one code unit form one group that carries that unit.
proof fn lemma_encode_unit(u: u16)
    ensures
        group_ok(encode_unit(u)),
        group_len(encode_unit(u)[0]) == encode_unit(u).len(),
        group_unit(encode_unit(u)) == u,
        encode_unit(u)[0] != 0,
        !is_cont(encode_unit(u)[0]),
        encode_unit(u)[0] < 0xf0,
        is_lead3(encode_unit(u)[0]) <==> u >= 0x800,
        grouped(encode_unit(u)),
        units(encode_unit(u)) == seq![u],
        !is_high(u) && !is_low(u) ==> is_valid(encode_unit(u)),
{
    let e = encode_unit(u);
    if 1 <= u < 0x80 {
    } else if u < 0x800 {
        lemma_encode_unit2_bits(u);
    } else {
        lemma_encode_unit3_bits(u);
    }
    let z = e.subrange(group_len(e[0]), e.len() as int);
    assert(z.len() == 0);
    assert(units(z) == Seq::<u16>::empty());
    assert(grouped(z));
    assert(check(z) is Ok);
    assert(units(e) =~= seq![u]);
}

/// A valid buffer consists of whole groups whose code units pair up.
pub proof fn lemma_valid_grouped(b: Seq<u8>)
    requires
        is_valid(b),
    ensures
        grouped(b),
        paired(units(b)),
    decreases b.len(),
{
    if b.len() > 0 {
        let k = group_len(b[0]);
        let r = b.subrange(k, b.len() as int);
        if b[0] < 0x80 {
            lemma_valid_grouped(r);
        } else if is_lead2(b[0]) {
            lemma_valid_grouped(r);
            lemma_unit2_range(b[0], b[1]);
        } else if !is_high(unit3(b[0], b[1], b[2])) {
            lemma_valid_grouped(r);
        } else {
            let r6 = b.subrange(6, b.len() as int);
            lemma_valid_grouped(r6);
            assert(r.subrange(3, r.len() as int) =~= r6);
            assert(group_unit(r) == unit3(b[3], b[4], b[5]));
            assert(units(r) =~= seq![group_unit(r)] + units(r6));
            assert(units(b).subrange(2, units(b).len() as int) =~= units(r6));
            assert(grouped(r));
        }
        assert(units(b).subrange(1, units(b).len() as int) =~= units(r));
    }
}

/// Whole groups whose code units pair up are valid: with `lemma_valid_grouped`,
/// the validator accepts exactly the buffers of complete groups (no literal NUL,
/// no stray continuation byte, no byte `0xf0..=0xff`) whose surrogates pair up.
pub proof fn lemma_grouped_paired_valid(b: Seq<u8>)
    requires
        grouped(b),
        paired(units(b)),
    ensures
        is_valid(b),
    decreases b.len(),
{
    if b.len() > 0 {
        let k = group_len(b[0]);
        let r = b.subrange(k, b.len() as int);
        let u = units(b);
        assert(u == seq![group_unit(b)] + units(r));
        assert(u.subrange(1, u.len() as int) =~= units(r));
        if b[0] < 0x80 {
            lemma_grouped_paired_valid(r);
        } else if is_lead2(b[0]) {
            lemma_unit2_range(b[0], b[1]);
            lemma_grouped_paired_valid(r);
        } else if !is_high(unit3(b[0], b[1], b[2])) {
            lemma_grouped_paired_valid(r);
        } else {
            assert(r.len() > 0);
            assert(grouped(r));
            assert(group_ok(r));
            assert(u[1] == group_unit(r));
            if r[0] < 0xe0 {
                if r[0] >= 0x80 {
                    lemma_unit2_range(r[0], r[1]);
                }
                assert(false);
            }
            let r6 = b.subrange(6, b.len() as int);
            assert(r.subrange(3, r.len() as int) =~= r6);
            assert(units(r) == seq![group_unit(r)] + units(r6));
            assert(u.subrange(2, u.len() as int) =~= units(r6));
            assert(r[0] == b[3] && r[1] == b[4] && r[2] == b[5]);
            lemma_grouped_paired_valid(r6);
        }
    }
}

/// Whole groups decode on their own, whatever follows them.
pub proof fn lemma_units_append(p: Seq<u8>, r: Seq<u8>)
    requires
        grouped(p),
    ensures
        units(p + r) == units(p) + units(r),
    decreases p.len(),
{
    if p.len() == 0 {
        assert(p + r =~= r);
        assert(units(p) + units(r) =~= units(r));
    } else {
        let k = group_len(p[0]);
        let q = p + r;
        lemma_units_append(p.subrange(k, p.len() as int), r);
        assert(q.subrange(k, q.len() as int) =~= p.subrange(k, p.len() as int) + r);
        assert(group_unit(q) == group_unit(p));
        assert(units(q) =~= units(p) + units(r));
    }
}

/// A valid buffer is checked the same way whatever follows it.
pub proof fn lemma_check_append(p: Seq<u8>, r: Seq<u8>)
    requires
        is_valid(p),
    ensures
        check(p + r) == shift(check(r), p.len() as int),
    decreases p.len(),
{
    let q = p + r;
    if p.len() == 0 {
        assert(q =~= r);
    } else {
        let k = if p[0] < 0x80 || is_lead2(p[0]) || !is_high(unit3(p[0], p[1], p[2])) {
            group_len(p[0])
        } else {
            6
        };
        let pk = p.subrange(k, p.len() as int);
        lemma_check_append(pk, r);
        assert(q.subrange(k, q.len() as int) =~= pk + r);
        if k == 6 {
            assert(q.subrange(3, q.len() as int)[1] == p[4]);
            assert(q.subrange(3, q.len() as int)[2] == p[5]);
            assert(p.subrange(3, p.len() as int)[1] == p[4]);
            assert(p.subrange(3, p.len() as int)[2] == p[5]);
        }
    }
}

/// The Modified UTF-8 bytes of any scalar value are valid.
pub proof fn lemma_encode_char_valid(c: char)
    ensures
        is_valid(encode_char(c)),
        grouped(encode_char(c)),
        units(encode_char(c)) == char_units(c),
{
    let v = c as u32;
    vstd::utf8::char_is_scalar(c);
    if v < 0x10000 {
        lemma_encode_unit((c as u32) as u16);
    } else {
        let h = high_of(v);
        let l = low_of(v);
        lemma_surrogates_bits(v);
        let eh = encode_unit(h);
        let el = encode_unit(l);
        lemma_encode_unit(h);
        lemma_encode_unit(l);
        let e = eh + el;
        assert(e.subrange(3, e.len() as int) =~= el);
        assert(check(e.subrange(6, 6)) is Ok);
        lemma_grouped_append(eh, el);
        lemma_units_append(eh, el);
        assert(units(e) =~= seq![h, l]);
    }
}

/// Lossy conversion cannot fail: the Modified UTF-8 encoding of any text is valid.
pub proof fn lemma_encode_valid(s: Seq<char>)
    ensures
        is_valid(encode(s)),
        grouped(encode(s)),
    decreases s.len(),
{
    if s.len() > 0 {
        lemma_encode_valid(s.drop_first());
        lemma_encode_char_valid(s[0]);
        lemma_check_append(encode_char(s[0]), encode(s.drop_first()));
        lemma_grouped_append(encode_char(s[0]), encode(s.drop_first()));
    }
}

/// Two runs of whole groups make a run of whole groups.
pub proof fn lemma_grouped_append(p: Seq<u8>, r: Seq<u8>)
    requires
        grouped(p),
        grouped(r),
    ensures
        grouped(p + r),
    decreases p.len(),
{
    if p.len() == 0 {
        assert(p + r =~= r);
    } else {
        let k = group_len(p[0]);
        lemma_grouped_append(p.subrange(k, p.len() as int), r);
        assert((p + r).subrange(k, (p + r).len() as int) =~= p.subrange(k, p.len() as int) + r);
    }
}

/// Converting any text to Modified UTF-8 and decoding it gives the text back.
pub proof fn lemma_round_trip(s: Seq<char>)
    ensures
        decode(encode(s)) == s,
    decreases s.len(),
{
    if s.len() > 0 {
        let c = s[0];
        let rest = s.drop_first();
        lemma_round_trip(rest);
        lemma_encode_char_valid(c);
        lemma_units_append(encode_char(c), encode(rest));
        let u = units(encode(s));
        let ur = units(encode(rest));
        assert(u == char_units(c) + ur);
        let v = c as u32;
        vstd::utf8::char_is_scalar(c);
        if v < 0x10000 {
            assert(u.subrange(1, u.len() as int) =~= ur);
            assert(!is_high((c as u32) as u16));
            vstd::utf8::char_u32_cast(c, ((c as u32) as u16) as u32);
        } else {
            lemma_surrogates_bits(v);
            assert(u.subrange(2, u.len() as int) =~= ur);
            vstd::utf8::char_u32_cast(c, pair_scalar(high_of(v), low_of(v)));
        }
        assert(decode(encode(s)) =~= s);
    }
}

/// Below `0x10000` the bytes of standard UTF-8 are those of `encode_unit`; above,
/// its lead byte is `0xf0` or more.
proof fn lemma_utf8_bytes(v: u32)
    by (bit_vector)
    ensures
        v < 0x80 ==> leading_byte_width_1(v) == (v as u16) as u8,
        0x80 <= v < 0x800 ==> leading_byte_width_2(v) == (0xc0u16 | ((v as u16) >> 6u16)) as u8
            && last_continuation_byte(v) == (0x80u16 | ((v as u16) & 0x3f)) as u8,
        0x800 <= v < 0x10000 ==> leading_byte_width_3(v) == (0xe0u16 | ((v as u16) >> 12u16)) as u8
            && second_last_continuation_byte(v) == (0x80u16 | (((v as u16) >> 6u16) & 0x3f)) as u8
            && last_continuation_byte(v) == (0x80u16 | ((v as u16) & 0x3f)) as u8,
        leading_byte_width_4(v) >= 0xf0,
{
}

/// Where the UTF-8 bytes of a text are valid Modified UTF-8, they are its
/// Modified UTF-8 bytes: the text holds no NUL and nothing above `0xffff`.
pub proof fn lemma_utf8_agrees(s: Seq<char>)
    requires
        is_valid(encode_utf8(s)),
    ensures
        encode_utf8(s) == encode(s),
        forall|i: int| 0 <= i < s.len() ==> !needs_rewrite(#[trigger] s[i]),
    decreases s.len(),
{
    if s.len() > 0 {
        let c = s[0];
        let v = c as u32;
        vstd::utf8::char_is_scalar(c);
        let rest = s.drop_first();
        let e = encode_utf8(s);
        lemma_utf8_bytes(v);
        assert(e == encode_scalar(v) + encode_utf8(rest));
        if v == 0 {
            assert(e[0] == 0);
        }
        if v >= 0x10000 {
            assert(e[0] >= 0xf0);
        }
        assert(encode_scalar(v) =~= encode_char(c));
        lemma_encode_char_valid(c);
        lemma_check_append(encode_char(c), encode_utf8(rest));
        lemma_utf8_agrees(rest);
        assert forall|i: int| 0 <= i < s.len() implies !needs_rewrite(#[trigger] s[i]) by {
            if i > 0 {
                assert(s[i] == rest[i - 1]);
            }
        }
    }
}

/// Decoding the UTF-8 bytes of a text that are also valid Modified UTF-8 gives the text.
pub proof fn lemma_utf8_decode(s: Seq<char>)
    requires
        is_valid(encode_utf8(s)),
    ensures
        decode(encode_utf8(s)) == s,
{
    lemma_utf8_agrees(s);
    lemma_round_trip(s);
}

/// Buffers that differ only in which non-NUL ASCII bytes they hold are checked alike.
pub proof fn lemma_check_ascii_swap(a: Seq<u8>, b: Seq<u8>)
    requires
        a.len() == b.len(),
        forall|i: int|
            0 <= i < a.len() ==> a[i] == b[i] || (1 <= a[i] < 0x80 && 1 <= b[i] < 0x80),
    ensures
        check(a) == check(b),
    decreases a.len(),
{
    let n = a.len() as int;
    if n > 0 {
        if n >= 1 {
            lemma_check_ascii_swap(a.subrange(1, n), b.subrange(1, n));
        }
        if n >= 2 {
            lemma_check_ascii_swap(a.subrange(2, n), b.subrange(2, n));
        }
        if n >= 3 {
            lemma_check_ascii_swap(a.subrange(3, n), b.subrange(3, n));
            if n >= 5 {
                assert(a.subrange(3, n)[1] == a[4] && b.subrange(3, n)[1] == b[4]);
            }
        }
        if n >= 6 {
            lemma_check_ascii_swap(a.subrange(6, n), b.subrange(6, n));
            assert(a.subrange(3, n)[2] == a[5] && b.subrange(3, n)[2] == b[5]);
        }
        assert(a[0] == b[0] || (1 <= a[0] < 0x80 && 1 <= b[0] < 0x80));
        if n >= 2 {
            assert(a[1] == b[1] || (1 <= a[1] < 0x80 && 1 <= b[1] < 0x80));
        }
        if n >= 3 {
            assert(a[2] == b[2] || (1 <= a[2] < 0x80 && 1 <= b[2] < 0x80));
        }
        if n >= 4 {
            assert(a[3] == b[3] || (1 <= a[3] < 0x80 && 1 <= b[3] < 0x80));
        }
        if n >= 5 {
            assert(a[4] == b[4] || (1 <= a[4] < 0x80 && 1 <= b[4] < 0x80));
        }
        if n >= 6 {
            assert(a[5] == b[5] || (1 <= a[5] < 0x80 && 1 <= b[5] < 0x80));
        }
    }
}

/// An ASCII upper-case letter made lower case: bit `0x20` set.
pub open spec fn lower_byte(b: u8) -> u8 {
    if 0x41 <= b <= 0x5a {
        b | 0x20
    } else {
        b
    }
}

/// An ASCII lower-case letter made upper case: bit `0x20` cleared.
pub open spec fn upper_byte(b: u8) -> u8 {
    if 0x61 <= b <= 0x7a {
        b & 0xdf
    } else {
        b
    }
}

/// Every ASCII upper-case letter lower-cased, every other byte kept.
pub open spec fn lowered(b: Seq<u8>) -> Seq<u8> {
    Seq::new(b.len(), |i: int| lower_byte(b[i]))
}

/// Every ASCII lower-case letter upper-cased, every other byte kept.
pub open spec fn uppered(b: Seq<u8>) -> Seq<u8> {
    Seq::new(b.len(), |i: int| upper_byte(b[i]))
}

/// ASCII case folding keeps Modified UTF-8 valid: it touches only letters,
/// which never stand inside a multi-byte group.
pub proof fn lemma_case_fold_valid(b: Seq<u8>)
    requires
        is_valid(b),
    ensures
        is_valid(lowered(b)),
        is_valid(uppered(b)),
{
    assert forall|i: int| 0 <= i < b.len() implies b[i] == lowered(b)[i] || (1 <= b[i] < 0x80 && 1
        <= lowered(b)[i] < 0x80) by {
        lemma_case_bytes(b[i]);
    }
    assert forall|i: int| 0 <= i < b.len() implies b[i] == uppered(b)[i] || (1 <= b[i] < 0x80 && 1
        <= uppered(b)[i] < 0x80) by {
        lemma_case_bytes(b[i]);
    }
    lemma_check_ascii_swap(b, lowered(b));
    lemma_check_ascii_swap(b, uppered(b));
}

/// Case folding changes only letters, into letters.
pub proof fn lemma_case_bytes(b: u8)
    ensures
        b != lower_byte(b) ==> 1 <= b < 0x80 && 1 <= lower_byte(b) < 0x80,
        b != upper_byte(b) ==> 1 <= b < 0x80 && 1 <= upper_byte(b) < 0x80,
{
    assert(0x41 <= b <= 0x5a ==> 0x61 <= (b | 0x20) <= 0x7a) by (bit_vector);
    assert(0x61 <= b <= 0x7a ==> 0x41 <= (b & 0xdf) <= 0x5a) by (bit_vector);
}

/// A byte `0xf0..=0xff` where a group should start is rejected right there as
/// a fault of length 1, whatever follows it.
pub proof fn lemma_wide_lead_rejected(p: Seq<u8>, b: u8, s: Seq<u8>)
    requires
        is_valid(p),
        b >= 0xf0,
    ensures
        check(p + seq![b] + s) == Err::<(), (int, Option<int>)>((p.len() as int, Some(1int))),
{
    assert(p + seq![b] + s =~= p + (seq![b] + s));
    lemma_check_append(p, seq![b] + s);
}

/// A scalar value that standard UTF-8 writes differently: NUL and those above `0xffff`.
pub open spec fn needs_rewrite(c: char) -> bool {
    c as u32 == 0 || c as u32 >= 0x10000
}

/// The index of the first scalar value that needs rewriting (the length if none does).
pub open spec fn first_rewrite(s: Seq<char>) -> int
    decreases s.len(),
{
    if s.len() == 0 || needs_rewrite(s[0]) {
        0
    } else {
        1 + first_rewrite(s.drop_first())
    }
}

/// Standard UTF-8 encodes a concatenation piece by piece.
pub proof fn lemma_encode_utf8_concat(a: Seq<char>, b: Seq<char>)
    ensures
        encode_utf8(a + b) == encode_utf8(a) + encode_utf8(b),
    decreases a.len(),
{
    if a.len() == 0 {
        assert(a + b =~= b);
        assert(encode_utf8(a) + encode_utf8(b) =~= encode_utf8(b));
    } else {
        lemma_encode_utf8_concat(a.drop_first(), b);
        assert((a + b).drop_first() =~= a.drop_first() + b);
        assert(encode_utf8(a + b) =~= encode_utf8(a) + encode_utf8(b));
    }
}

/// Modified UTF-8 encodes a concatenation piece by piece.
pub proof fn lemma_encode_concat(a: Seq<char>, b: Seq<char>)
    ensures
        encode(a + b) == encode(a) + encode(b),
    decreases a.len(),
{
    if a.len() == 0 {
        assert(a + b =~= b);
        assert(encode(a) + encode(b) =~= encode(b));
    } else {
        lemma_encode_concat(a.drop_first(), b);
        assert((a + b).drop_first() =~= a.drop_first() + b);
        assert(encode(a + b) =~= encode(a) + encode(b));
    }
}

/// Validating the UTF-8 bytes of a text stops at the first scalar value that
/// needs rewriting, at the offset where its bytes start, with a fault of length 1;
/// the bytes before it are valid.
pub proof fn lemma_utf8_first_fault(s: Seq<char>)
    requires
        !is_valid(encode_utf8(s)),
    ensures
        0 <= first_rewrite(s) < s.len(),
        needs_rewrite(s[first_rewrite(s)]),
        is_valid(encode_utf8(s.take(first_rewrite(s)))),
        check(encode_utf8(s)) == Err::<(), (int, Option<int>)>(
            (encode_utf8(s.take(first_rewrite(s))).len() as int, Some(1int)),
        ),
    decreases s.len(),
{
    let c = s[0];
    let v = c as u32;
    vstd::utf8::char_is_scalar(c);
    lemma_utf8_bytes(v);
    let rest = s.drop_first();
    let e = encode_utf8(s);
    assert(e == encode_scalar(v) + encode_utf8(rest));
    if needs_rewrite(c) {
        assert(s.take(0) =~= Seq::<char>::empty());
        assert(encode_utf8(s.take(0)) =~= Seq::<u8>::empty());
    } else {
        assert(encode_scalar(v) =~= encode_char(c));
        lemma_encode_char_valid(c);
        lemma_check_append(encode_char(c), encode_utf8(rest));
        lemma_utf8_first_fault(rest);
        let j = first_rewrite(rest);
        let t = s.take(j + 1);
        assert(t.drop_first() =~= rest.take(j));
        assert(t[0] == c);
        assert(encode_utf8(t) == encode_char(c) + encode_utf8(rest.take(j)));
        lemma_check_append(encode_char(c), encode_utf8(rest.take(j)));
    }
}

/// The UTF-8 bytes of the first `i` scalar values end on a character boundary.
pub proof fn lemma_utf8_boundary(s: Seq<char>, i: int)
    requires
        0 <= i <= s.len(),
    ensures
        is_char_boundary(encode_utf8(s), encode_utf8(s.take(i)).len() as int),
    decreases i,
{
    let bytes = encode_utf8(s);
    vstd::utf8::encode_utf8_valid_utf8(s);
    if i == 0 {
        assert(s.take(0) =~= Seq::<char>::empty());
        assert(is_char_boundary(bytes, 0));
    } else {
        lemma_utf8_boundary(s.drop_first(), i - 1);
        vstd::utf8::encode_utf8_first_scalar(s);
        assert(pop_first_scalar(bytes) =~= encode_utf8(s.drop_first()));
        assert(s.take(i).drop_first() =~= s.drop_first().take(i - 1));
        assert(s.take(i)[0] == s[0]);
        assert(encode_utf8(s.take(i)) == encode_scalar(s[0] as u32) + encode_utf8(
            s.drop_first().take(i - 1),
        ));
        assert(s =~= s.take(i) + s.skip(i));
        lemma_encode_utf8_concat(s.take(i), s.skip(i));
        let idx = encode_utf8(s.take(i)).len() as int;
        assert(idx <= bytes.len());
        assert(idx > 0);
        assert(is_char_boundary(
            pop_first_scalar(bytes),
            idx - vstd::utf8::length_of_first_scalar(bytes),
        ));
        assert(is_char_boundary(bytes, idx));
    }
}

} // verus!
