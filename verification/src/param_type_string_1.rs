//! A `String` parameter: appending "world" to an owned string.

use vstd::prelude::*;

use crate::support::leak_string;

verus! {

/// A copy of `s` with "world" appended.
pub fn f(s: String) -> (x: String)
    ensures
        x@ == s@ + "world"@,
{
    let mut x: String = s.clone();
    x.append("world");
    x
}

/// `s` with "world" appended, leaked so that it lives for the rest of the program.
pub fn g(s: String) -> (r: &'static str)
    ensures
        r@ == s@ + "world"@,
{
    let mut boxed_str = s;
    boxed_str.append("world");
    leak_string(boxed_str)
}

} // verus!
