//! A `&String` parameter: dropping the first two bytes of a string.

use vstd::prelude::*;
use vstd::utf8::*;

verus! {

/// `r` without its first two bytes; byte 2 must start a character.
pub fn f(r: &String) -> (res: &str)
    requires
        is_char_boundary(encode_utf8(r@), 2),
    ensures
        encode_utf8(res@) == encode_utf8(r@).subrange(2, encode_utf8(r@).len() as int),
{
    crate::param_type_str::f(r.as_str())
}

} // verus!
