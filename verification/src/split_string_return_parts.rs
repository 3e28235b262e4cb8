//! Splitting a string at bytes 4 and 8 into three parts, returned as
//! borrowed slices or owned strings, in an array or a vector.

use vstd::prelude::*;
use vstd::utf8::*;

verus! {

/// True when bytes 4 and 8 of `s` both start a character (or end the string).
pub open spec fn splittable(s: Seq<char>) -> bool {
    is_char_boundary(encode_utf8(s), 4) && is_char_boundary(encode_utf8(s), 8)
}

/// The UTF-8 bytes `a..b` of `s`.
pub open spec fn bytes_between(s: Seq<char>, a: int, b: int) -> Seq<u8> {
    encode_utf8(s).subrange(a, b)
}

/// True when the three parts are bytes `0..4`, `4..8` and `8..` of `s`.
pub open spec fn three_parts(s: Seq<char>, p0: Seq<char>, p1: Seq<char>, p2: Seq<char>) -> bool {
    &&& encode_utf8(p0) == bytes_between(s, 0, 4)
    &&& encode_utf8(p1) == bytes_between(s, 4, 8)
    &&& encode_utf8(p2) == bytes_between(s, 8, encode_utf8(s).len() as int)
}

/// A character boundary of a valid byte sequence stays one in a prefix that
/// ends at a later boundary.
proof fn lemma_boundary_in_prefix(bytes: Seq<u8>, a: int, b: int)
    requires
        valid_utf8(bytes),
        is_char_boundary(bytes, a),
        is_char_boundary(bytes, b),
        0 <= a <= b,
    ensures
        is_char_boundary(bytes.subrange(0, b), a),
{
    valid_utf8_split(bytes, b);
    let pre = bytes.subrange(0, b);
    if a == b {
        is_char_boundary_start_end_of_seq(pre);
    } else if a > 0 {
        is_char_boundary_len_le(bytes, b);
        is_char_boundary_iff_not_is_continuation_byte(bytes, a);
        is_char_boundary_iff_not_is_continuation_byte(pre, a);
    }
}

proof fn is_char_boundary_len_le(bytes: Seq<u8>, b: int)
    requires
        valid_utf8(bytes),
        is_char_boundary(bytes, b),
    ensures
        0 <= b <= bytes.len(),
    decreases bytes.len(),
{
    if b != 0 {
        is_char_boundary_len_le(pop_first_scalar(bytes), b - length_of_first_scalar(bytes));
    }
}

/// The three parts of `r` as slices.
fn parts(r: &str) -> (res: (&str, &str, &str))
    requires
        splittable(r@),
    ensures
        three_parts(r@, res.0@, res.1@, res.2@),
{
    proof {
        encode_utf8_valid_utf8(r@);
        lemma_boundary_in_prefix(encode_utf8(r@), 4, 8);
    }
    let (ab, c) = r.split_at(8);
    let (a, b) = ab.split_at(4);
    assert(encode_utf8(a@) =~= bytes_between(r@, 0, 4));
    assert(encode_utf8(b@) =~= bytes_between(r@, 4, 8));
    (a, b, c)
}

/// The three parts of `r` in an array of slices.
pub fn f1(r: &str) -> (res: [&str; 3])
    requires
        splittable(r@),
    ensures
        three_parts(r@, res[0]@, res[1]@, res[2]@),
{
    let (a, b, c) = parts(r);
    [a, b, c]
}

/// The three parts of `r` in a vector of slices.
pub fn f3(r: &str) -> (out: Vec<&str>)
    requires
        splittable(r@),
    ensures
        out@.len() == 3,
        three_parts(r@, out@[0]@, out@[1]@, out@[2]@),
{
    let (a, b, c) = parts(r);
    let mut out: Vec<&str> = Vec::new();
    out.push(a);
    out.push(b);
    out.push(c);
    out
}

/// The three parts of `r` in an array of owned strings.
pub fn g1(r: &str) -> (res: [String; 3])
    requires
        splittable(r@),
    ensures
        three_parts(r@, res[0]@, res[1]@, res[2]@),
{
    let (a, b, c) = parts(r);
    [a.to_owned(), b.to_owned(), c.to_owned()]
}

/// The three parts of `r` in a vector of owned strings.
pub fn g3(r: &str) -> (out: Vec<String>)
    requires
        splittable(r@),
    ensures
        out@.len() == 3,
        three_parts(r@, out@[0]@, out@[1]@, out@[2]@),
{
    let (a, b, c) = parts(r);
    let mut out: Vec<String> = Vec::new();
    out.push(a.to_owned());
    out.push(b.to_owned());
    out.push(c.to_owned());
    out
}

} // verus!
