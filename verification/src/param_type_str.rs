//! A `&str` parameter: dropping the first two bytes of a string slice.

use vstd::prelude::*;
use vstd::utf8::*;

verus! {

/// `r` without its first two bytes; byte 2 must start a character.
pub fn f(r: &str) -> (res: &str)
    requires
        is_char_boundary(encode_utf8(r@), 2),
    ensures
        encode_utf8(res@) == encode_utf8(r@).subrange(2, encode_utf8(r@).len() as int),
{
    proof {
        encode_utf8_valid_utf8(r@);
    }
    let (_, rest) = r.split_at(2);
    rest
}

} // verus!
