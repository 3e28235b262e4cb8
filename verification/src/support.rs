//! Small std operations that vstd gives no specification for.

use vstd::prelude::*;
use vstd::utf8::*;

verus! {

/// Calls `String::push`, which appends one `char` to the end of the string.
/// Trusted: the string afterwards holds its old characters followed by `c`.
#[verifier::external_body]
pub(crate) fn push_char(s: &mut String, c: char)
    ensures
        final(s)@ == old(s)@.push(c),
{
    s.push(c);
}

/// Calls `char::from_u32`, which is documented to return `Some` exactly for
/// Unicode scalar values (`0..=0x10FFFF` outside the surrogate range) and then
/// the `char` with that value. Trusted.
#[verifier::external_body]
pub(crate) fn char_from_u32(u: u32) -> (r: Option<char>)
    ensures
        r is Some <==> is_scalar(u),
        r matches Some(c) ==> c as u32 == u,
{
    char::from_u32(u)
}

/// Calls `Box::leak`, which gives up ownership of the box for a reference
/// that lives for the rest of the program. Trusted: the reference shows the
/// boxed string.
#[verifier::external_body]
fn leak_box(b: Box<String>) -> (r: &'static String)
    ensures
        *r == *b,
{
    Box::leak(b)
}

/// `s` as a string slice that lives for the rest of the program.
pub(crate) fn leak_string(s: String) -> (r: &'static str)
    ensures
        r@ == s@,
{
    let leaked: &'static String = leak_box(Box::new(s));
    leaked.as_str()
}

} // verus!
