//! Reversing an ASCII string.

use vstd::prelude::*;
use vstd::string::*;
use vstd::utf8::*;

use crate::chop::chars_of;
use crate::support::push_char;

verus! {

/// Reverses an ASCII string.
pub fn reverse_string(s: String) -> (r: String)
    requires
        is_ascii_chars(s@),
    ensures
        r@ == s@.reverse(),
{
    let s_vec: Vec<char> = chars_of(s.as_str());
    proof {
        is_ascii_chars_encode_utf8(s@);
    }
    let n = s.as_str().as_bytes().len();
    let mut out = String::new();
    let mut i: usize = 0;
    while i < n
        invariant
            0 <= i <= n,
            n == s@.len(),
            s_vec@ == s@,
            out@ == s@.reverse().take(i as int),
        decreases n - i,
    {
        push_char(&mut out, s_vec[n - 1 - i]);
        assert(out@ =~= s@.reverse().take(i + 1));
        i = i + 1;
    }
    assert(out@ =~= s@.reverse());
    out
}

/// Reversing twice gives the original string back.
pub proof fn lemma_reverse_involutive(s: Seq<char>)
    ensures
        s.reverse().reverse() == s,
        is_ascii_chars(s) ==> is_ascii_chars(s.reverse()),
{
    assert(s.reverse().reverse() =~= s);
}

} // verus!
