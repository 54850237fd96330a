//! Byte primitives: big-endian integer readers and writers, NUL-terminated
//! and length-prefixed field readers, and UTF-8 text extraction.

use vstd::prelude::*;
use vstd::utf8::{valid_utf8, decode_utf8, encode_utf8};
use vstd::string::StringSliceAdditionalSpecFns;
use vstd::slice::slice_subrange;
use crate::error::ProtocolError;

verus! {

/// Value of a 2-byte big-endian integer.
pub open spec fn be_u16(s: Seq<u8>) -> int
    recommends
        s.len() == 2,
{
    s[0] * 0x100 + s[1]
}

/// Value of a 4-byte big-endian integer.
pub open spec fn be_u32(s: Seq<u8>) -> int
    recommends
        s.len() == 4,
{
    s[0] * 0x100_0000 + s[1] * 0x1_0000 + s[2] * 0x100 + s[3]
}

/// Value of a 4-byte big-endian two's-complement integer.
pub open spec fn be_i32(s: Seq<u8>) -> int
    recommends
        s.len() == 4,
{
    if be_u32(s) >= 0x8000_0000 {
        be_u32(s) - 0x1_0000_0000
    } else {
        be_u32(s)
    }
}

/// Value of a 2-byte big-endian two's-complement integer.
pub open spec fn be_i16(s: Seq<u8>) -> int
    recommends
        s.len() == 2,
{
    if be_u16(s) >= 0x8000 {
        be_u16(s) - 0x1_0000
    } else {
        be_u16(s)
    }
}

/// The 2-byte big-endian encoding of an integer in `[0, 2^16)`.
pub open spec fn u16_be(x: int) -> Seq<u8>
    recommends
        0 <= x < 0x1_0000,
{
    seq![((x / 0x100) % 0x100) as u8, (x % 0x100) as u8]
}

/// The 4-byte big-endian encoding of an integer in `[0, 2^32)`.
pub open spec fn u32_be(x: int) -> Seq<u8>
    recommends
        0 <= x < 0x1_0000_0000,
{
    seq![
        ((x / 0x100_0000) % 0x100) as u8,
        ((x / 0x1_0000) % 0x100) as u8,
        ((x / 0x100) % 0x100) as u8,
        (x % 0x100) as u8,
    ]
}

/// Reading back a 4-byte big-endian encoding yields the encoded value.
pub proof fn lemma_be_u32_roundtrip(x: int)
    requires
        0 <= x < 0x1_0000_0000,
    ensures
        be_u32(u32_be(x)) == x,
{
    assert(((x / 0x100_0000) % 0x100) * 0x100_0000 + ((x / 0x1_0000) % 0x100) * 0x1_0000
        + ((x / 0x100) % 0x100) * 0x100 + x % 0x100 == x) by (nonlinear_arith)
        requires 0 <= x < 0x1_0000_0000;
}

/// Reads a 2-byte big-endian integer. The input must be exactly two bytes.
pub fn slice_to_u16(input: &[u8]) -> (r: u16)
    requires
        input@.len() == 2,
    ensures
        r == be_u16(input@),
{
    let b0 = input[0];
    let b1 = input[1];
    (b0 as u16) * 0x100 + (b1 as u16)
}

/// Reads a 4-byte big-endian integer. The input must be exactly four bytes.
pub fn slice_to_u32(input: &[u8]) -> (r: u32)
    requires
        input@.len() == 4,
    ensures
        r == be_u32(input@),
{
    let b0 = input[0];
    let b1 = input[1];
    let b2 = input[2];
    let b3 = input[3];
    (b0 as u32) * 0x100_0000 + (b1 as u32) * 0x1_0000 + (b2 as u32) * 0x100 + (b3 as u32)
}

/// Reads a 2-byte big-endian two's-complement integer.
pub fn slice_to_i16(input: &[u8]) -> (r: i16)
    requires
        input@.len() == 2,
    ensures
        r as int == be_i16(input@),
{
    let u = slice_to_u16(input);
    if u >= 0x8000 {
        let neg = (0x1_0000u32 - u as u32) as i32;
        (-neg) as i16
    } else {
        u as i16
    }
}

/// Reads a 4-byte big-endian two's-complement integer.
pub fn slice_to_i32(input: &[u8]) -> (r: i32)
    requires
        input@.len() == 4,
    ensures
        r as int == be_i32(input@),
{
    let u = slice_to_u32(input);
    if u >= 0x8000_0000 {
        let neg = (0x1_0000_0000u64 - u as u64) as i64;
        (-neg) as i32
    } else {
        u as i32
    }
}

/// Appends the 2-byte big-endian encoding of `x`.
pub fn push_u16_be(buf: &mut Vec<u8>, x: u16)
    ensures
        final(buf)@ == old(buf)@ + u16_be(x as int),
{
    buf.push((x / 0x100) as u8);
    buf.push((x % 0x100) as u8);
    assert(buf@ =~= old(buf)@ + u16_be(x as int));
}

/// Appends the 4-byte big-endian encoding of `x`.
pub fn push_u32_be(buf: &mut Vec<u8>, x: u32)
    ensures
        final(buf)@ == old(buf)@ + u32_be(x as int),
{
    buf.push((x / 0x100_0000) as u8);
    buf.push(((x / 0x1_0000) % 0x100) as u8);
    buf.push(((x / 0x100) % 0x100) as u8);
    buf.push((x % 0x100) as u8);
    assert(buf@ =~= old(buf)@ + u32_be(x as int));
}

/// Index of the first NUL byte, if any.
pub open spec fn spec_find_nul(b: Seq<u8>) -> Option<int>
    decreases b.len(),
{
    if b.len() == 0 {
        None
    } else if b[0] == 0 {
        Some(0int)
    } else {
        match spec_find_nul(b.drop_first()) {
            None => None,
            Some(i) => Some(i + 1),
        }
    }
}

/// `spec_find_nul` returns the position of the first NUL byte.
pub proof fn lemma_find_nul_props(b: Seq<u8>)
    ensures
        match spec_find_nul(b) {
            Some(i) => 0 <= i < b.len() && b[i] == 0 && forall|j: int| 0 <= j < i ==> b[j] != 0,
            None => forall|j: int| 0 <= j < b.len() ==> b[j] != 0,
        },
    decreases b.len(),
{
    if b.len() > 0 && b[0] != 0 {
        let t = b.drop_first();
        lemma_find_nul_props(t);
        assert(forall|j: int| 1 <= j < b.len() ==> b[j] == t[j - 1]);
        match spec_find_nul(t) {
            Some(i) => {
                assert(b[i + 1] == t[i]);
                assert(forall|j: int| 0 <= j < i + 1 ==> b[j] != 0) by {
                    assert(forall|j: int| 1 <= j < i + 1 ==> b[j] == t[j - 1] && t[j - 1] != 0);
                }
            },
            None => {
                assert(forall|j: int| 1 <= j < b.len() ==> b[j] == t[j - 1] && t[j - 1] != 0);
            },
        }
    }
}

/// Position of the first occurrence of `matched`, scanning from the front.
pub fn find_first(input: &[u8], matched: u8) -> (r: Option<usize>)
    ensures
        match r {
            Some(i) => {
                &&& (i as int) < input@.len()
                &&& input@[i as int] == matched
                &&& forall|j: int| 0 <= j < i ==> input@[j] != matched
            },
            None => forall|j: int| 0 <= j < input@.len() ==> input@[j] != matched,
        },
{
    let len = input.len();
    let mut i: usize = 0;
    while i < len
        invariant
            len == input@.len(),
            i <= len,
            forall|j: int| 0 <= j < i ==> input@[j] != matched,
        decreases len - i,
    {
        if input[i] == matched {
            return Some(i);
        }
        i = i + 1;
    }
    None
}

/// Finds the first NUL byte; agrees with `spec_find_nul`.
pub fn find_nul(input: &[u8]) -> (r: Option<usize>)
    ensures
        match r {
            Some(i) => spec_find_nul(input@) == Some(i as int),
            None => spec_find_nul(input@) is None,
        },
{
    let r = find_first(input, 0);
    proof {
        lemma_find_nul_props(input@);
    }
    match r {
        Some(i) => {
            proof {
                // both i and the spec result are the minimal NUL position
                if let Some(k) = spec_find_nul(input@) {
                    assert(!(k < i) && !(i < k));
                }
            }
            Some(i)
        },
        None => None,
    }
}

/// The first NUL is unmoved by appending a byte; appending a NUL to a
/// NUL-free string creates the first one at the end.
pub proof fn lemma_find_nul_extend(b: Seq<u8>, x: u8)
    ensures
        match spec_find_nul(b) {
            Some(i) => spec_find_nul(b.push(x)) == Some(i),
            None => spec_find_nul(b.push(x)) == if x == 0 {
                Some(b.len() as int)
            } else {
                None::<int>
            },
        },
{
    lemma_find_nul_props(b);
    lemma_find_nul_props(b.push(x));
    assert(forall|j: int| 0 <= j < b.len() ==> b.push(x)[j] == b[j]);
    assert(b.push(x)[b.len() as int] == x);
    match spec_find_nul(b) {
        Some(i) => {
            assert(b.push(x)[i] == 0);
            match spec_find_nul(b.push(x)) {
                Some(k) => {
                    assert(!(k < i) && !(i < k));
                },
                None => {
                    assert(false);
                },
            }
        },
        None => {
            match spec_find_nul(b.push(x)) {
                Some(k) => {
                    assert(k == b.len());
                    assert(x == 0);
                },
                None => {
                    assert(x != 0);
                },
            }
        },
    }
}

/// Dropping the final byte leaves the first NUL in place unless that byte
/// was the only NUL.
pub proof fn lemma_find_nul_shrink(b: Seq<u8>)
    requires
        b.len() > 0,
    ensures
        match spec_find_nul(b) {
            Some(i) => if i < b.len() - 1 {
                spec_find_nul(b.drop_last()) == Some(i)
            } else {
                spec_find_nul(b.drop_last()) is None
            },
            None => spec_find_nul(b.drop_last()) is None,
        },
{
    lemma_find_nul_props(b);
    lemma_find_nul_props(b.drop_last());
    assert(forall|j: int| 0 <= j < b.len() - 1 ==> b.drop_last()[j] == b[j]);
    match spec_find_nul(b) {
        Some(i) => {
            if i < b.len() - 1 {
                assert(b.drop_last()[i] == 0);
                match spec_find_nul(b.drop_last()) {
                    Some(k) => {
                        assert(!(k < i) && !(i < k));
                    },
                    None => {
                        assert(false);
                    },
                }
            } else {
                match spec_find_nul(b.drop_last()) {
                    Some(k) => {
                        assert(b[k] == 0);
                        assert(false);
                    },
                    None => {},
                }
            }
        },
        None => {
            match spec_find_nul(b.drop_last()) {
                Some(k) => {
                    assert(b[k] == 0);
                    assert(false);
                },
                None => {},
            }
        },
    }
}

/// A parsed text-plus-fixed field is unchanged by appending a byte, which
/// lands in the remainder.
pub proof fn lemma_take_cstring_fixed_extend(b: Seq<u8>, fixed: int, x: u8)
    requires
        fixed >= 0,
        spec_take_cstring_plus_fixed(b, fixed) is Some,
    ensures
        ({
            let (s, f, r) = spec_take_cstring_plus_fixed(b, fixed)->Some_0;
            spec_take_cstring_plus_fixed(b.push(x), fixed) == Some((s, f, r.push(x)))
        }),
{
    lemma_find_nul_props(b);
    lemma_find_nul_extend(b, x);
    let i = spec_find_nul(b)->Some_0;
    assert(b.push(x).take(i) =~= b.take(i));
    assert(b.push(x).subrange(i + 1, i + 1 + fixed) =~= b.subrange(i + 1, i + 1 + fixed));
    assert(b.push(x).skip(i + 1 + fixed) =~= b.skip(i + 1 + fixed).push(x));
}

/// Dropping the final byte of the input either shortens the remainder of a
/// parsed field or, when the field consumed everything, breaks the parse.
pub proof fn lemma_take_cstring_fixed_shrink(b: Seq<u8>, fixed: int)
    requires
        fixed >= 0,
        spec_take_cstring_plus_fixed(b, fixed) is Some,
    ensures
        ({
            let (s, f, r) = spec_take_cstring_plus_fixed(b, fixed)->Some_0;
            &&& r.len() > 0 ==> spec_take_cstring_plus_fixed(b.drop_last(), fixed) == Some(
                (s, f, r.drop_last()),
            )
            &&& r.len() == 0 ==> spec_take_cstring_plus_fixed(b.drop_last(), fixed) is None
        }),
{
    lemma_find_nul_props(b);
    lemma_find_nul_shrink(b);
    let i = spec_find_nul(b)->Some_0;
    let r = b.skip(i + 1 + fixed);
    if r.len() > 0 {
        assert(i < b.len() - 1);
        assert(b.drop_last().take(i) =~= b.take(i));
        assert(b.drop_last().subrange(i + 1, i + 1 + fixed) =~= b.subrange(i + 1, i + 1 + fixed));
        assert(b.drop_last().skip(i + 1 + fixed) =~= b.skip(i + 1 + fixed).drop_last());
    } else {
        assert(i + 1 + fixed == b.len());
        if i < b.len() - 1 {
            // the fixed bytes reached the end, so they no longer fit
            assert(spec_find_nul(b.drop_last()) == Some(i));
            assert(i + 1 + fixed > b.len() - 1);
        }
    }
}

/// A parsed length-prefixed value is unchanged by appending a byte, which
/// lands in the remainder.
pub proof fn lemma_take_sized_extend(b: Seq<u8>, x: u8)
    requires
        spec_take_sized(b) is Some,
    ensures
        ({
            let (v, r) = spec_take_sized(b)->Some_0;
            spec_take_sized(b.push(x)) == Some((v, r.push(x)))
        }),
{
    assert(b.push(x).take(4) =~= b.take(4));
    let n = be_i32(b.take(4));
    if n == -1 {
        assert(b.push(x).skip(4) =~= b.skip(4).push(x));
    } else {
        assert(b.push(x).subrange(4, 4 + n) =~= b.subrange(4, 4 + n));
        assert(b.push(x).skip(4 + n) =~= b.skip(4 + n).push(x));
    }
}

/// Dropping the final byte of the input either shortens the remainder of a
/// parsed length-prefixed value or, when it consumed everything, breaks
/// the parse.
pub proof fn lemma_take_sized_shrink(b: Seq<u8>)
    requires
        spec_take_sized(b) is Some,
    ensures
        ({
            let (v, r) = spec_take_sized(b)->Some_0;
            &&& r.len() > 0 ==> spec_take_sized(b.drop_last()) == Some((v, r.drop_last()))
            &&& r.len() == 0 ==> spec_take_sized(b.drop_last()) is None
        }),
{
    let n = be_i32(b.take(4));
    let (v, r) = spec_take_sized(b)->Some_0;
    if r.len() > 0 {
        assert(b.drop_last().take(4) =~= b.take(4));
        if n == -1 {
            assert(b.drop_last().skip(4) =~= b.skip(4).drop_last());
        } else {
            assert(b.drop_last().subrange(4, 4 + n) =~= b.subrange(4, 4 + n));
            assert(b.drop_last().skip(4 + n) =~= b.skip(4 + n).drop_last());
        }
    } else {
        if b.len() - 1 >= 4 {
            assert(b.drop_last().take(4) =~= b.take(4));
        }
    }
}

/// Relies on `core::str::from_utf8`: returns the string over exactly these
/// bytes when they are valid UTF-8, and nothing otherwise.
#[verifier::external_body]
pub(crate) fn bytes_to_str(v: &[u8]) -> (r: Option<&str>)
    ensures
        match r {
            Some(s) => valid_utf8(v@) && s@ == decode_utf8(v@) && s.spec_bytes() == v@,
            None => !valid_utf8(v@),
        },
{
    core::str::from_utf8(v).ok()
}

/// Converts a buffer of ASCII bytes into the string over those bytes.
pub fn ascii_bytes_to_string(v: &Vec<u8>) -> (r: String)
    requires
        forall|i: int| 0 <= i < v@.len() ==> v@[i] < 0x80,
    ensures
        encode_utf8(r@) == v@,
        r@ == decode_utf8(v@),
        r@.len() == v@.len(),
{
    proof {
        assert(v@.subrange(0, 0) =~= Seq::<u8>::empty());
        assert(vstd::utf8::partial_valid_utf8(v@, 0));
        assert(forall|i: int|
            0 <= 0 <= i < v@.len() <= v@.len() ==> #[trigger] vstd::utf8::is_leading_byte_width_1(
                v@[i],
            ));
        vstd::utf8::partial_valid_utf8_extend_ascii_block(v@, 0, v@.len() as int);
        assert(v@.subrange(0, v@.len() as int) =~= v@);
    }
    match bytes_to_str(v.as_slice()) {
        Some(s) => {
            let r = s.to_owned();
            proof {
                vstd::utf8::decode_utf8_encode_utf8(v@);
                assert(r@.len() == v@.len()) by {
                    lemma_ascii_decode_len(v@);
                }
            }
            r
        },
        None => {
            proof {
                assert(false);
            }
            unreached()
        },
    }
}

/// Decoding an all-ASCII byte sequence yields one character per byte.
proof fn lemma_ascii_decode_len(b: Seq<u8>)
    requires
        valid_utf8(b),
        forall|i: int| 0 <= i < b.len() ==> b[i] < 0x80,
    ensures
        decode_utf8(b).len() == b.len(),
    decreases b.len(),
{
    if b.len() > 0 {
        let rest = vstd::utf8::pop_first_scalar(b);
        assert(rest =~= b.skip(1));
        assert(forall|i: int| 0 <= i < rest.len() ==> rest[i] < 0x80);
        lemma_ascii_decode_len(rest);
    }
}

/// A NUL-terminated field followed by `fixed` bytes of fixed-width data:
/// the text bytes, the fixed bytes, and the unread remainder.
pub open spec fn spec_take_cstring_plus_fixed(b: Seq<u8>, fixed: int) -> Option<
    (Seq<u8>, Seq<u8>, Seq<u8>),
>
    recommends
        fixed >= 0,
{
    match spec_find_nul(b) {
        None => None,
        Some(i) => if i + 1 + fixed <= b.len() {
            Some((b.take(i), b.subrange(i + 1, i + 1 + fixed), b.skip(i + 1 + fixed)))
        } else {
            None
        },
    }
}

/// Reads a NUL-terminated UTF-8 field plus `fixed` following bytes, returning
/// the text, the fixed bytes, and the remainder of the input.
pub fn take_cstring_plus_fixed<'a>(input: &'a [u8], fixed: usize) -> (r: Result<
    (&'a str, &'a [u8], &'a [u8]),
    ProtocolError,
>)
    ensures
        match r {
            Ok((s, f, rest)) => {
                &&& spec_take_cstring_plus_fixed(input@, fixed as int) == Some(
                    (s.spec_bytes(), f@, rest@),
                )
                &&& valid_utf8(s.spec_bytes())
                &&& s@ == decode_utf8(s.spec_bytes())
            },
            Err(ProtocolError::Truncated) => spec_take_cstring_plus_fixed(input@, fixed as int)
                is None,
            Err(ProtocolError::Utf8) => {
                &&& spec_take_cstring_plus_fixed(input@, fixed as int) matches Some((sb, _, _))
                    && !valid_utf8(sb)
            },
            Err(_) => false,
        },
{
    match find_nul(input) {
        None => Err(ProtocolError::Truncated),
        Some(i) => {
            proof {
                lemma_find_nul_props(input@);
            }
            if fixed > input.len() - (i + 1) {
                return Err(ProtocolError::Truncated);
            }
            let name_bytes = slice_subrange(input, 0, i);
            let fixed_bytes = slice_subrange(input, i + 1, i + 1 + fixed);
            let rest = slice_subrange(input, i + 1 + fixed, input.len());
            match bytes_to_str(name_bytes) {
                None => Err(ProtocolError::Utf8),
                Some(s) => Ok((s, fixed_bytes, rest)),
            }
        },
    }
}

/// A NUL-terminated field alone: the text bytes and the unread remainder.
pub open spec fn spec_take_cstring(b: Seq<u8>) -> Option<(Seq<u8>, Seq<u8>)> {
    match spec_take_cstring_plus_fixed(b, 0) {
        None => None,
        Some((s, _, r)) => Some((s, r)),
    }
}

/// Reads one NUL-terminated UTF-8 field, returning the text and the
/// remainder of the input.
pub fn take_cstring<'a>(input: &'a [u8]) -> (r: Result<(&'a str, &'a [u8]), ProtocolError>)
    ensures
        match r {
            Ok((s, rest)) => {
                &&& spec_take_cstring(input@) == Some((s.spec_bytes(), rest@))
                &&& valid_utf8(s.spec_bytes())
                &&& s@ == decode_utf8(s.spec_bytes())
            },
            Err(ProtocolError::Truncated) => spec_take_cstring(input@) is None,
            Err(ProtocolError::Utf8) => {
                &&& spec_take_cstring(input@) matches Some((sb, _)) && !valid_utf8(sb)
            },
            Err(_) => false,
        },
{
    match take_cstring_plus_fixed(input, 0) {
        Ok((s, _, rest)) => Ok((s, rest)),
        Err(e) => Err(e),
    }
}

/// A length-prefixed value: `None` for the NULL marker (length `-1`), else
/// the value bytes; paired with the unread remainder.
pub open spec fn spec_take_sized(b: Seq<u8>) -> Option<(Option<Seq<u8>>, Seq<u8>)> {
    if b.len() < 4 {
        None
    } else {
        let n = be_i32(b.take(4));
        if n == -1 {
            Some((None, b.skip(4)))
        } else if n < 0 {
            None
        } else if 4 + n <= b.len() {
            Some((Some(b.subrange(4, 4 + n)), b.skip(4 + n)))
        } else {
            None
        }
    }
}

/// Reads one length-prefixed value (`i32` length, `-1` meaning NULL),
/// returning the value bytes and the remainder of the input.
pub fn take_sized_string<'a>(input: &'a [u8]) -> (r: Result<
    (Option<&'a [u8]>, &'a [u8]),
    ProtocolError,
>)
    ensures
        match r {
            Ok((v, rest)) => {
                match v {
                    Some(bytes) => spec_take_sized(input@) == Some(
                        (Some(bytes@), rest@),
                    ),
                    None => spec_take_sized(input@) == Some((None::<Seq<u8>>, rest@)),
                }
            },
            Err(ProtocolError::Truncated) => spec_take_sized(input@) is None,
            Err(_) => false,
        },
{
    if input.len() < 4 {
        return Err(ProtocolError::Truncated);
    }
    let len_bytes = slice_subrange(input, 0, 4);
    let n = slice_to_u32(len_bytes);
    proof {
        assert(len_bytes@ == input@.take(4));
    }
    if n == 0xFFFF_FFFFu32 {
        let rest = slice_subrange(input, 4, input.len());
        Ok((None, rest))
    } else if n >= 0x8000_0000u32 {
        Err(ProtocolError::Truncated)
    } else {
        let size = n as usize;
        if size > input.len() - 4 {
            return Err(ProtocolError::Truncated);
        }
        let value = slice_subrange(input, 4, 4 + size);
        let rest = slice_subrange(input, 4 + size, input.len());
        Ok((Some(value), rest))
    }
}

} // verus!
