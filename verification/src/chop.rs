//! Splitting a string into characters and into chunks of three characters.

use vstd::prelude::*;
use vstd::string::*;
use vstd::utf8::*;

verus! {

/// The characters of `s`, in order.
pub fn chars_of(s: &str) -> (out: Vec<char>)
    ensures
        out@ == s@,
{
    let mut out: Vec<char> = Vec::new();
    for c in it: s.chars()
        invariant
            out@ == it.seq().take(it.index() as int),
            it.seq() == s@,
    {
        out.push(c);
    }
    out
}

/// Splits `s` into its characters.
pub fn chop_1(s: String) -> (out: Vec<char>)
    ensures
        out@ == s@,
{
    chars_of(s.as_str())
}

/// The `k`-th chunk of three characters of `s`, padded with spaces.
pub open spec fn chunk_of(s: Seq<char>, k: int) -> Seq<char> {
    Seq::new(3, |j: int| if 3 * k + j < s.len() { s[3 * k + j] } else { ' ' })
}

/// Splits an ASCII string into chunks of three characters; the last chunk is
/// padded with spaces when the length is not a multiple of three.
pub fn chop_3(s: String) -> (out: Vec<[char; 3]>)
    requires
        is_ascii_chars(s@),
    ensures
        out@.len() == (s@.len() + 2) / 3,
        forall|k: int| 0 <= k < out@.len() ==> (#[trigger] out@[k])@ == chunk_of(s@, k),
{
    let mut out: Vec<[char; 3]> = Vec::new();
    let s_vec: Vec<char> = chars_of(s.as_str());
    proof {
        is_ascii_chars_encode_utf8(s@);
    }
    let st = s.as_str();
    assert(st.spec_bytes() == encode_utf8(s@));
    let n = st.as_bytes().len();
    let mut chunk: [char; 3] = [' ', ' ', ' '];
    let mut i: usize = 0;
    while i < n
        invariant
            0 <= i <= n,
            n == s@.len(),
            s_vec@ == s@,
            out@.len() == (if i == n { (n + 2) / 3 } else { (i / 3) as int }),
            forall|k: int| 0 <= k < out@.len() ==> (#[trigger] out@[k])@ == chunk_of(s@, k),
            forall|j: int| 0 <= j < 3 ==> #[trigger] chunk@[j] == (if j < i % 3 {
                s@[i - i % 3 + j]
            } else {
                ' '
            }),
        decreases n - i,
    {
        let r = i % 3;
        if r == 0 {
            chunk[0] = s_vec[i];
        } else if r == 1 {
            chunk[1] = s_vec[i];
        } else {
            chunk[2] = s_vec[i];
            assert(chunk@ =~= chunk_of(s@, (i / 3) as int));
            out.push(chunk);
            chunk = [' ', ' ', ' '];
            i = i + 1;
            continue;
        }
        if i == n - 1 {
            assert(chunk@ =~= chunk_of(s@, (i / 3) as int));
            out.push(chunk);
        }
        i = i + 1;
    }
    out
}

} // verus!
