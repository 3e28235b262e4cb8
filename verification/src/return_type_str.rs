//! Returning string slices with and without borrowed inputs.

use vstd::prelude::*;

use crate::support::leak_string;

verus! {

/// A string literal, which lives for the whole program.
pub fn f1() -> (r: &'static str)
    ensures
        r@ == "Hello, world!"@,
{
    "Hello, world!"
}

/// Leaks `s` so that it can be returned as `&'static str`.
pub fn f2(s: String) -> (r: &'static str)
    ensures
        r@ == s@,
{
    leak_string(s)
}

/// Borrows the contents of `r`.
pub fn f3(r: &String) -> (res: &str)
    ensures
        res@ == r@,
{
    r.as_str()
}

/// Returns the borrowed slice itself.
pub fn f4(r: &str) -> (res: &str)
    ensures
        res@ == r@,
{
    r
}

} // verus!
