//! Counting the occurrences of a byte in a slice.

use vstd::prelude::*;

verus! {

broadcast use vstd::seq_lib::group_seq_properties;

/// How many elements of `s` equal `n`.
pub open spec fn occurrences(s: Seq<u8>, n: u8) -> nat {
    s.filter(is_byte(n)).len()
}

/// The predicate "equals `n`".
pub open spec fn is_byte(n: u8) -> spec_fn(u8) -> bool {
    |x: u8| x == n
}

/// Counts how many bytes of `slice` equal `n`.
pub fn find_num_occurrence_slice(n: u8, slice: &[u8]) -> (count: usize)
    ensures
        count == occurrences(slice@, n),
{
    let mut count: usize = 0;
    let mut i: usize = 0;
    while i < slice.len()
        invariant
            0 <= i <= slice@.len(),
            count == occurrences(slice@.take(i as int), n),
            count <= i,
        decreases slice@.len() - i,
    {
        proof {
            assert(slice@.take(i + 1) =~= slice@.take(i as int).push(slice@[i as int]));
            slice@.take(i as int).lemma_filter_push(slice@[i as int], is_byte(n));
        }
        if slice[i] == n {
            count = count + 1;
        }
        i = i + 1;
    }
    assert(slice@.take(i as int) =~= slice@);
    count
}

/// Counting starts at zero, and each element adds one exactly when it is
/// the byte looked for: the count is the number of positions holding `n`.
pub proof fn lemma_occurrences_count_positions(s: Seq<u8>, x: u8, n: u8)
    ensures
        occurrences(Seq::<u8>::empty(), n) == 0,
        occurrences(s.push(x), n) == occurrences(s, n) + if x == n {
            1nat
        } else {
            0nat
        },
        occurrences(s, n) <= s.len(),
{
    assert(Seq::<u8>::empty().filter(is_byte(n)) =~= Seq::<u8>::empty()) by {
        reveal(Seq::filter);
    }
    s.lemma_filter_push(x, is_byte(n));
    s.lemma_filter_len(is_byte(n));
}

} // verus!
