use vstd::prelude::*;
use vstd::utf8::*;

verus! {

broadcast use vstd::seq::group_seq_axioms;

/// Converts a Unicode scalar value to the `char` with that value.
///
/// Calls `char::from_u32`, whose documentation says that it returns `None`
/// exactly for values that are not valid `char`s, that is not Unicode scalar
/// values, and otherwise the `char` with the given value. The contract states
/// that and nothing more.
#[verifier::external_body]
fn char_from_u32(v: u32) -> (c: Option<char>)
    ensures
        is_scalar(v) ==> c == Some(v as char),
        !is_scalar(v) ==> c is None,
{
    char::from_u32(v)
}

/// True when `b` is a continuation byte of a multi-byte encoding.
fn is_continuation(b: u8) -> (r: bool)
    ensures
        r == is_continuation_byte(b),
{
    0x80 <= b && b <= 0xbf
}

/// The codepoint that starts at `bytes[i]` and the number of bytes it takes,
/// when the leading byte and the continuation bytes have the right bit
/// patterns; `None` otherwise. Overlong and surrogate encodings are not
/// rejected here.
fn first_codepoint_at(bytes: &[u8], i: usize) -> (r: Option<(u32, usize)>)
    requires
        i < bytes@.len(),
    ensures
        ({
            let rest = bytes@.subrange(i as int, bytes@.len() as int);
            &&& (r is Some <==> valid_leading_and_continuation_bytes_first_codepoint(rest))
            &&& (r matches Some((cp, w)) ==> {
                &&& cp == decode_first_codepoint(rest)
                &&& w as int == length_of_first_codepoint(rest)
                &&& 1 <= w <= 4
                &&& (w == 1 ==> cp <= 0x7f)
                &&& (w == 2 ==> cp <= 0x7ff)
                &&& (w == 3 ==> cp <= 0xffff)
            })
        }),
{
    let n = bytes.len();
    let ghost rest = bytes@.subrange(i as int, n as int);
    let b0 = bytes[i];
    assert(rest[0] == b0);
    if b0 <= 0x7f {
        let cp = (b0 & 0x7F) as u32;
        assert(((b0 & 0x7F) as u32) <= 0x7f) by (bit_vector);
        Some((cp, 1))
    } else if 0xc0 <= b0 && b0 <= 0xdf {
        if n - i > 1 && is_continuation(bytes[i + 1]) {
            let b1 = bytes[i + 1];
            assert(rest[1] == b1);
            let cp = (((b0 & 0x1F) as u32) << 6) | ((b1 & 0x3f) as u32);
            assert(((((b0 & 0x1F) as u32) << 6) | ((b1 & 0x3f) as u32)) <= 0x7ff) by (bit_vector);
            Some((cp, 2))
        } else {
            None
        }
    } else if 0xe0 <= b0 && b0 <= 0xef {
        if n - i > 2 && is_continuation(bytes[i + 1]) && is_continuation(bytes[i + 2]) {
            let b1 = bytes[i + 1];
            let b2 = bytes[i + 2];
            assert(rest[1] == b1 && rest[2] == b2);
            let cp = (((b0 & 0x0F) as u32) << 12) | (((b1 & 0x3f) as u32) << 6) | ((b2
                & 0x3f) as u32);
            assert(((((b0 & 0x0F) as u32) << 12) | (((b1 & 0x3f) as u32) << 6) | ((b2
                & 0x3f) as u32)) <= 0xffff) by (bit_vector);
            Some((cp, 3))
        } else {
            None
        }
    } else if 0xf0 <= b0 && b0 <= 0xf7 {
        if n - i > 3 && is_continuation(bytes[i + 1]) && is_continuation(bytes[i + 2])
            && is_continuation(bytes[i + 3]) {
            let b1 = bytes[i + 1];
            let b2 = bytes[i + 2];
            let b3 = bytes[i + 3];
            assert(rest[1] == b1 && rest[2] == b2 && rest[3] == b3);
            let cp = (((b0 & 0x07) as u32) << 18) | (((b1 & 0x3f) as u32) << 12) | (((b2
                & 0x3f) as u32) << 6) | ((b3 & 0x3f) as u32);
            Some((cp, 4))
        } else {
            None
        }
    } else {
        None
    }
}

/// The scalar that starts at `bytes[i]` and the number of bytes it takes, or
/// `None` when no well-formed UTF-8 encoding of a scalar starts there.
fn first_scalar_at(bytes: &[u8], i: usize) -> (r: Option<(u32, usize)>)
    requires
        i < bytes@.len(),
    ensures
        ({
            let rest = bytes@.subrange(i as int, bytes@.len() as int);
            &&& (r is Some <==> valid_first_scalar(rest))
            &&& (r matches Some((cp, w)) ==> {
                &&& cp == decode_first_scalar(rest)
                &&& w as int == length_of_first_scalar(rest)
                &&& 1 <= w <= 4
                &&& is_scalar(cp)
            })
        }),
{
    match first_codepoint_at(bytes, i) {
        None => None,
        Some((cp, w)) => {
            let not_overlong = (w != 2 || 0x80 <= cp) && (w != 3 || 0x800 <= cp) && (w != 4 || (
            0x10000 <= cp && cp <= 0x10ffff));
            let not_surrogate = !(0xD800 <= cp && cp <= 0xDFFF);
            if not_overlong && not_surrogate {
                Some((cp, w))
            } else {
                None
            }
        },
    }
}

/// Decoding a concatenation of two valid encodings gives the concatenation
/// of their decodings.
proof fn lemma_decode_utf8_concat(b1: Seq<u8>, b2: Seq<u8>)
    requires
        valid_utf8(b1),
        valid_utf8(b2),
    ensures
        valid_utf8(b1 + b2),
        decode_utf8(b1 + b2) == decode_utf8(b1) + decode_utf8(b2),
    decreases b1.len(),
{
    valid_utf8_concat(b1, b2);
    if b1.len() == 0 {
        assert(b1 + b2 =~= b2);
        assert(decode_utf8(b1) =~= Seq::<char>::empty());
        assert(decode_utf8(b1) + decode_utf8(b2) =~= decode_utf8(b2));
    } else {
        let rest = pop_first_scalar(b1);
        assert(rest.len() < b1.len());
        lemma_decode_utf8_concat(rest, b2);
        let w = length_of_first_scalar(b1);
        assert((b1 + b2).subrange(0, w) =~= b1.subrange(0, w));
        assert(pop_first_scalar(b1 + b2) =~= rest + b2);
        assert(decode_first_scalar(b1 + b2) == decode_first_scalar(b1));
        assert(decode_utf8(b1 + b2) =~= seq![decode_first_scalar(b1) as char] + (decode_utf8(
            rest,
        ) + decode_utf8(b2)));
        assert(decode_utf8(b1) =~= seq![decode_first_scalar(b1) as char] + decode_utf8(rest));
        assert(decode_utf8(b1 + b2) =~= decode_utf8(b1) + decode_utf8(b2));
    }
}

/// Extending a valid prefix by the scalar that follows it appends that
/// scalar's `char` to the decoding.
proof fn lemma_decode_utf8_extend(bytes: Seq<u8>, i: int)
    requires
        partial_valid_utf8(bytes, i),
        valid_first_scalar(bytes.subrange(i, bytes.len() as int)),
    ensures
        ({
            let rest = bytes.subrange(i, bytes.len() as int);
            let j = i + length_of_first_scalar(rest);
            &&& j <= bytes.len()
            &&& partial_valid_utf8(bytes, j)
            &&& decode_utf8(bytes.subrange(0, j)) == decode_utf8(bytes.subrange(0, i)).push(
                decode_first_scalar(rest) as char,
            )
        }),
{
    let rest = bytes.subrange(i, bytes.len() as int);
    let w = length_of_first_scalar(rest);
    let j = i + w;
    partial_valid_utf8_extend(bytes, i);
    let scalar = bytes.subrange(i, j);
    assert(scalar =~= rest.subrange(0, w));
    assert(valid_first_scalar(scalar));
    assert(decode_first_scalar(scalar) == decode_first_scalar(rest));
    assert(pop_first_scalar(scalar) =~= Seq::<u8>::empty());
    assert(valid_utf8(pop_first_scalar(scalar)));
    assert(valid_utf8(scalar));
    assert(decode_utf8(pop_first_scalar(scalar)) =~= Seq::<char>::empty());
    assert(decode_utf8(scalar) =~= seq![decode_first_scalar(rest) as char]);
    lemma_decode_utf8_concat(bytes.subrange(0, i), scalar);
    assert(bytes.subrange(0, i) + scalar =~= bytes.subrange(0, j));
}

/// Decodes UTF-8 text.
///
/// Returns the decoded characters when `bytes` is well-formed UTF-8 (as
/// `std::str::from_utf8` accepts it: no overlong encodings, no surrogates,
/// nothing above U+10FFFF, no truncated sequence), and `None` otherwise.
pub fn decode_utf8_chars(bytes: &[u8]) -> (r: Option<Vec<char>>)
    ensures
        r is Some <==> valid_utf8(bytes@),
        r matches Some(cs) ==> cs@ == decode_utf8(bytes@),
{
    let n = bytes.len();
    let mut out: Vec<char> = Vec::new();
    let mut i: usize = 0;
    assert(bytes@.subrange(0, 0) =~= Seq::<u8>::empty());
    assert(decode_utf8(bytes@.subrange(0, 0)) =~= Seq::<char>::empty());
    while i < n
        invariant
            n == bytes@.len(),
            i <= n,
            partial_valid_utf8(bytes@, i as int),
            out@ == decode_utf8(bytes@.subrange(0, i as int)),
        decreases n - i,
    {
        let ghost rest = bytes@.subrange(i as int, n as int);
        match first_scalar_at(bytes, i) {
            None => {
                proof {
                    assert(!valid_utf8(rest));
                    partial_valid_partial_invalid_utf8(bytes@, i as int);
                }
                return None;
            },
            Some((cp, w)) => {
                proof {
                    lemma_decode_utf8_extend(bytes@, i as int);
                }
                match char_from_u32(cp) {
                    Some(c) => {
                        out.push(c);
                    },
                    None => {
                        assert(false);
                        return None;
                    },
                }
                i = i + w;
            },
        }
    }
    assert(bytes@.subrange(0, n as int) =~= bytes@);
    Some(out)
}

} // verus!
