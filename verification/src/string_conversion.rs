//! Conversions between strings and their UTF-8 bytes.
//!
//! `vector_to_string` decodes bytes the way `String::from_utf8_lossy` does:
//! every well-formed scalar encoding becomes its `char`, and every maximal
//! prefix of an ill-formed sequence becomes one U+FFFD REPLACEMENT CHARACTER.

use vstd::prelude::*;
use vstd::slice::slice_to_vec;
use vstd::utf8::*;

use crate::support::{char_from_u32, push_char};

verus! {

broadcast use vstd::seq::group_seq_axioms;

/// The character written in place of an ill-formed byte sequence.
pub open spec fn replacement_char() -> char {
    '\u{FFFD}'
}

/// True when `second` may follow the leading byte `first` in a well-formed
/// encoding (the ranges of table 3-7 of the Unicode standard).
pub open spec fn second_byte_ok(first: u8, second: u8) -> bool {
    if 0xc2 <= first <= 0xdf {
        is_continuation_byte(second)
    } else if first == 0xe0 {
        0xa0 <= second <= 0xbf
    } else if 0xe1 <= first <= 0xec || 0xee <= first <= 0xef {
        is_continuation_byte(second)
    } else if first == 0xed {
        0x80 <= second <= 0x9f
    } else if first == 0xf0 {
        0x90 <= second <= 0xbf
    } else if 0xf1 <= first <= 0xf3 {
        is_continuation_byte(second)
    } else if first == 0xf4 {
        0x80 <= second <= 0x8f
    } else {
        false
    }
}

/// Number of bytes replaced by one U+FFFD when `bytes` does not begin with a
/// well-formed scalar: the longest prefix that could still begin one, at least 1.
pub open spec fn invalid_prefix_len(bytes: Seq<u8>) -> int {
    if !(bytes.len() > 1 && second_byte_ok(bytes[0], bytes[1])) {
        1
    } else if !(0xe0 <= bytes[0] && bytes.len() > 2 && is_continuation_byte(bytes[2])) {
        2
    } else {
        3
    }
}

/// The characters that lossy UTF-8 decoding produces from `bytes`.
pub open spec fn lossy_utf8(bytes: Seq<u8>) -> Seq<char>
    decreases bytes.len(),
{
    if bytes.len() == 0 {
        seq![]
    } else if valid_first_scalar(bytes) {
        seq![decode_first_scalar(bytes) as char] + lossy_utf8(pop_first_scalar(bytes))
    } else {
        let k = invalid_prefix_len(bytes);
        seq![replacement_char()] + lossy_utf8(bytes.subrange(k, bytes.len() as int))
    }
}

/// A well-formed 2-byte encoding is one whose leading byte is at least 0xC2.
proof fn lemma_width_2(b0: u8, b1: u8)
    by (bit_vector)
    requires
        0xc0 <= b0 <= 0xdf,
        0x80 <= b1 <= 0xbf,
    ensures
        codepoint_width_2(b0, b1) >= 0x80 <==> b0 >= 0xc2,
        codepoint_width_2(b0, b1) < 0x800,
        codepoint_width_2(b0, b1) == ((((b0 & 0x1f) as u32) << 6u32) | ((b1 & 0x3f) as u32)),
{
}

/// Overlong and surrogate 3-byte encodings are told apart by the second byte.
proof fn lemma_width_3(b0: u8, b1: u8, b2: u8)
    by (bit_vector)
    requires
        0xe0 <= b0 <= 0xef,
        0x80 <= b1 <= 0xbf,
        0x80 <= b2 <= 0xbf,
    ensures
        codepoint_width_3(b0, b1, b2) >= 0x800 <==> !(b0 == 0xe0 && b1 < 0xa0),
        (0xd800 <= codepoint_width_3(b0, b1, b2) <= 0xdfff) <==> (b0 == 0xed && b1 >= 0xa0),
        codepoint_width_3(b0, b1, b2) <= 0xffff,
        codepoint_width_3(b0, b1, b2) == ((((b0 & 0x0f) as u32) << 12u32) | (((b1 & 0x3f) as u32)
            << 6u32) | ((b2 & 0x3f) as u32)),
{
}

/// A well-formed 4-byte encoding lies in 0x10000..=0x10FFFF, which the
/// leading and second byte decide.
proof fn lemma_width_4(b0: u8, b1: u8, b2: u8, b3: u8)
    by (bit_vector)
    requires
        0xf0 <= b0 <= 0xf7,
        0x80 <= b1 <= 0xbf,
        0x80 <= b2 <= 0xbf,
        0x80 <= b3 <= 0xbf,
    ensures
        (0x10000 <= codepoint_width_4(b0, b1, b2, b3) <= 0x10ffff) <==> ((b0 == 0xf0 && b1
            >= 0x90) || (0xf1 <= b0 <= 0xf3) || (b0 == 0xf4 && b1 <= 0x8f)),
        codepoint_width_4(b0, b1, b2, b3) == ((((b0 & 0x07) as u32) << 18u32) | (((b1
            & 0x3f) as u32) << 12u32) | (((b2 & 0x3f) as u32) << 6u32) | ((b3 & 0x3f) as u32)),
{
}

/// The bytes after the first `k` of `bytes`.
pub open spec fn rest_after(bytes: Seq<u8>, k: int) -> Seq<u8> {
    bytes.subrange(k, bytes.len() as int)
}

/// Decodes one step at `bytes[i..]`: a scalar, or U+FFFD for an ill-formed
/// prefix; returns the character and how many bytes it consumed.
fn decode_step(bytes: &[u8], i: usize) -> (res: (char, usize))
    requires
        i < bytes@.len(),
    ensures
        1 <= res.1 <= bytes@.len() - i,
        lossy_utf8(rest_after(bytes@, i as int)) == seq![res.0] + lossy_utf8(
            rest_after(bytes@, i + res.1),
        ),
{
    let ghost r = rest_after(bytes@, i as int);
    let n = bytes.len();
    let b0 = bytes[i];
    assert(r[0] == b0);
    assert(rest_after(r, 1) =~= rest_after(bytes@, i + 1));
    if b0 <= 0x7f {
        let cp = b0 as u32;
        assert(codepoint_width_1(b0) == cp) by (bit_vector)
            requires
                b0 <= 0x7f,
                cp == b0 as u32,
        ;
        assert(valid_first_scalar(r));
        assert(pop_first_scalar(r) =~= rest_after(bytes@, i + 1));
        let c = match char_from_u32(cp) {
            Some(c) => c,
            None => {
                assert(false);
                '\u{FFFD}'
            },
        };
        proof {
            vstd::utf8::char_u32_cast(c, cp);
        }
        return (c, 1);
    }
    let has1 = n - i > 1;
    let b1: u8 = if has1 {
        bytes[i + 1]
    } else {
        0
    };
    let ok1 = has1 && (if 0xc2 <= b0 && b0 <= 0xdf {
        0x80 <= b1 && b1 <= 0xbf
    } else if b0 == 0xe0 {
        0xa0 <= b1 && b1 <= 0xbf
    } else if (0xe1 <= b0 && b0 <= 0xec) || (0xee <= b0 && b0 <= 0xef) {
        0x80 <= b1 && b1 <= 0xbf
    } else if b0 == 0xed {
        0x80 <= b1 && b1 <= 0x9f
    } else if b0 == 0xf0 {
        0x90 <= b1 && b1 <= 0xbf
    } else if 0xf1 <= b0 && b0 <= 0xf3 {
        0x80 <= b1 && b1 <= 0xbf
    } else if b0 == 0xf4 {
        0x80 <= b1 && b1 <= 0x8f
    } else {
        false
    });
    assert(has1 ==> r[1] == b1);
    assert(ok1 == (r.len() > 1 && second_byte_ok(r[0], r[1])));
    if !ok1 {
        // not valid: either no leading byte, a missing or wrong second byte,
        // an overlong or surrogate encoding, or a value beyond 0x10FFFF
        if 0xc0 <= b0 && b0 <= 0xdf && has1 && 0x80 <= b1 && b1 <= 0xbf {
            proof {
                lemma_width_2(b0, b1);
            }
        }
        if 0xe0 <= b0 && b0 <= 0xef && n - i > 2 && 0x80 <= b1 && b1 <= 0xbf && 0x80 <= bytes[i
            + 2] && bytes[i + 2] <= 0xbf {
            proof {
                lemma_width_3(b0, b1, r[2]);
            }
        }
        if 0xf0 <= b0 && b0 <= 0xf7 && n - i > 3 && 0x80 <= b1 && b1 <= 0xbf && 0x80 <= bytes[i
            + 2] && bytes[i + 2] <= 0xbf && 0x80 <= bytes[i + 3] && bytes[i + 3] <= 0xbf {
            proof {
                lemma_width_4(b0, b1, r[2], r[3]);
            }
        }
        assert(!valid_first_scalar(r));
        assert(invalid_prefix_len(r) == 1);
        return ('\u{FFFD}', 1);
    }
    if b0 <= 0xdf {
        // a well-formed 2-byte encoding
        proof {
            lemma_width_2(b0, b1);
        }
        let cp: u32 = (((b0 & 0x1f) as u32) << 6u32) | ((b1 & 0x3f) as u32);
        assert(valid_first_scalar(r));
        assert(pop_first_scalar(r) =~= rest_after(bytes@, i + 2));
        let c = match char_from_u32(cp) {
            Some(c) => c,
            None => {
                assert(false);
                '\u{FFFD}'
            },
        };
        proof {
            vstd::utf8::char_u32_cast(c, cp);
        }
        return (c, 2);
    }
    let has2 = n - i > 2;
    let b2: u8 = if has2 {
        bytes[i + 2]
    } else {
        0
    };
    assert(has2 ==> r[2] == b2);
    if !(has2 && 0x80 <= b2 && b2 <= 0xbf) {
        assert(!valid_first_scalar(r));
        assert(invalid_prefix_len(r) == 2);
        assert(rest_after(r, 2) =~= rest_after(bytes@, i + 2));
        return ('\u{FFFD}', 2);
    }
    if b0 <= 0xef {
        // a well-formed 3-byte encoding
        proof {
            lemma_width_3(b0, b1, b2);
        }
        let cp: u32 = (((b0 & 0x0f) as u32) << 12u32) | (((b1 & 0x3f) as u32) << 6u32) | ((b2
            & 0x3f) as u32);
        assert(valid_first_scalar(r));
        assert(pop_first_scalar(r) =~= rest_after(bytes@, i + 3));
        let c = match char_from_u32(cp) {
            Some(c) => c,
            None => {
                assert(false);
                '\u{FFFD}'
            },
        };
        proof {
            vstd::utf8::char_u32_cast(c, cp);
        }
        return (c, 3);
    }
    let has3 = n - i > 3;
    let b3: u8 = if has3 {
        bytes[i + 3]
    } else {
        0
    };
    assert(has3 ==> r[3] == b3);
    if !(has3 && 0x80 <= b3 && b3 <= 0xbf) {
        assert(!valid_first_scalar(r));
        assert(invalid_prefix_len(r) == 3);
        assert(rest_after(r, 3) =~= rest_after(bytes@, i + 3));
        return ('\u{FFFD}', 3);
    }
    // a well-formed 4-byte encoding
    proof {
        lemma_width_4(b0, b1, b2, b3);
    }
    let cp: u32 = (((b0 & 0x07) as u32) << 18u32) | (((b1 & 0x3f) as u32) << 12u32) | (((b2
        & 0x3f) as u32) << 6u32) | ((b3 & 0x3f) as u32);
    assert(valid_first_scalar(r));
    assert(pop_first_scalar(r) =~= rest_after(bytes@, i + 4));
    let c = match char_from_u32(cp) {
        Some(c) => c,
        None => {
            assert(false);
            '\u{FFFD}'
        },
    };
    proof {
        vstd::utf8::char_u32_cast(c, cp);
    }
    (c, 4)
}

/// The UTF-8 bytes of `s`.
pub fn string_to_vector(s: &str) -> (v: Vec<u8>)
    ensures
        v@ == encode_utf8(s@),
{
    slice_to_vec(s.as_bytes())
}

/// Decodes `v` as UTF-8, replacing each ill-formed sequence by U+FFFD.
pub fn vector_to_string(v: &[u8]) -> (s: String)
    ensures
        s@ == lossy_utf8(v@),
{
    let mut out = String::new();
    let mut i: usize = 0;
    assert(rest_after(v@, 0) =~= v@);
    while i < v.len()
        invariant
            0 <= i <= v@.len(),
            lossy_utf8(v@) == out@ + lossy_utf8(rest_after(v@, i as int)),
        decreases v@.len() - i,
    {
        let (c, k) = decode_step(v, i);
        push_char(&mut out, c);
        i = i + k;
    }
    assert(rest_after(v@, i as int) =~= Seq::<u8>::empty());
    out
}

/// Lossy decoding of bytes that are well-formed UTF-8 is exact decoding.
pub proof fn lemma_lossy_of_valid(bytes: Seq<u8>)
    requires
        valid_utf8(bytes),
    ensures
        lossy_utf8(bytes) == decode_utf8(bytes),
    decreases bytes.len(),
{
    if bytes.len() > 0 {
        lemma_lossy_of_valid(pop_first_scalar(bytes));
    }
}

/// Decoding the bytes of a string gives the string back:
/// `vector_to_string(&string_to_vector(s))` equals `s`.
pub proof fn lemma_bytes_round_trip(chars: Seq<char>)
    ensures
        lossy_utf8(encode_utf8(chars)) == chars,
{
    vstd::utf8::encode_utf8_valid_utf8(chars);
    vstd::utf8::encode_utf8_decode_utf8(chars);
    lemma_lossy_of_valid(encode_utf8(chars));
}

/// An ill-formed sequence replaced by one U+FFFD is the leading byte and
/// the bytes that may still continue it: it lies within the input, and every
/// byte of it after the first is a continuation byte (0x80..=0xBF). So no
/// byte below 0x80 is ever swallowed into a replacement.
pub proof fn lemma_invalid_prefix_is_lead_and_continuations(bytes: Seq<u8>)
    requires
        bytes.len() > 0,
        !valid_first_scalar(bytes),
    ensures
        1 <= invalid_prefix_len(bytes) <= bytes.len(),
        forall|j: int|
            1 <= j < invalid_prefix_len(bytes) ==> is_continuation_byte(#[trigger] bytes[j]),
{
}

/// One decoding step on `x` followed by text that starts with an ASCII byte
/// reads exactly what the same step reads on `x` alone.
proof fn lemma_step_before_ascii(x: Seq<u8>, y: Seq<u8>)
    requires
        x.len() > 0,
        y.len() > 0,
        y[0] < 0x80,
    ensures
        valid_first_scalar(x + y) == valid_first_scalar(x),
        valid_first_scalar(x) ==> decode_first_scalar(x + y) == decode_first_scalar(x)
            && length_of_first_scalar(x + y) == length_of_first_scalar(x)
            && length_of_first_scalar(x) <= x.len()
            && pop_first_scalar(x + y) == pop_first_scalar(x) + y,
        !valid_first_scalar(x) ==> invalid_prefix_len(x + y) == invalid_prefix_len(x)
            && invalid_prefix_len(x) <= x.len()
            && (x + y).subrange(invalid_prefix_len(x), (x + y).len() as int) == x.subrange(
            invalid_prefix_len(x),
            x.len() as int,
        ) + y,
{
    let z = x + y;
    assert(z[0] == x[0]);
    assert(x.len() > 1 ==> z[1] == x[1]);
    assert(x.len() > 2 ==> z[2] == x[2]);
    assert(x.len() > 3 ==> z[3] == x[3]);
    assert(z[x.len() as int] == y[0]);
    if valid_first_scalar(x) {
        let k = length_of_first_scalar(x);
        assert(z.subrange(k, z.len() as int) =~= x.subrange(k, x.len() as int) + y);
    } else {
        lemma_invalid_prefix_is_lead_and_continuations(x);
        let k = invalid_prefix_len(x);
        assert(z.subrange(k, z.len() as int) =~= x.subrange(k, x.len() as int) + y);
    }
}

/// A byte below 0x80 always decodes to itself and splits the decoding: the
/// text before it and the text from it on decode independently, so no
/// ill-formed sequence before an ASCII byte ever swallows that byte.
pub proof fn lemma_lossy_splits_at_ascii(x: Seq<u8>, y: Seq<u8>)
    requires
        y.len() > 0 ==> y[0] < 0x80,
    ensures
        lossy_utf8(x + y) == lossy_utf8(x) + lossy_utf8(y),
        y.len() > 0 ==> lossy_utf8(y)[0] == (y[0] as u32) as char,
    decreases x.len(),
{
    if y.len() > 0 {
        let c = y[0];
        assert(valid_first_scalar(y)) by {
            assert(codepoint_width_1(c) == c as u32) by (bit_vector)
                requires
                    c < 0x80,
            ;
        }
        assert(codepoint_width_1(c) == c as u32) by (bit_vector)
            requires
                c < 0x80,
        ;
    }
    if x.len() == 0 {
        assert(x + y =~= y);
    } else if y.len() == 0 {
        assert(x + y =~= x);
    } else {
        lemma_step_before_ascii(x, y);
        if valid_first_scalar(x) {
            let rest = pop_first_scalar(x);
            lemma_lossy_splits_at_ascii(rest, y);
        } else {
            let rest = x.subrange(invalid_prefix_len(x), x.len() as int);
            lemma_lossy_splits_at_ascii(rest, y);
        }
    }
}

} // verus!
