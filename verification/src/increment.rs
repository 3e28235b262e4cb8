//! Adding one to every element of a byte array or slice.

use vstd::prelude::*;

verus! {

/// True when every element can be incremented without overflowing a `u8`.
pub open spec fn all_below_max(s: Seq<u8>) -> bool {
    forall|i: int| 0 <= i < s.len() ==> s[i] < 255
}

/// `s` with one added to every element.
pub open spec fn incremented(s: Seq<u8>) -> Seq<u8> {
    Seq::new(s.len(), |i: int| (s[i] + 1) as u8)
}

/// Returns a copy of `arr` with every element increased by one.
pub fn increment_array(arr: [u8; 10]) -> (res: [u8; 10])
    requires
        all_below_max(arr@),
    ensures
        res@ == incremented(arr@),
{
    let mut arr = arr;
    increment_array_ref(&mut arr);
    arr
}

/// Increases every element of the array behind `arr_ref` by one.
pub fn increment_array_ref(arr_ref: &mut [u8; 10])
    requires
        all_below_max(old(arr_ref)@),
    ensures
        final(arr_ref)@ == incremented(old(arr_ref)@),
{
    let ghost orig = arr_ref@;
    let mut i: usize = 0;
    while i < 10
        invariant
            0 <= i <= 10,
            orig.len() == 10,
            arr_ref@.len() == 10,
            all_below_max(orig),
            forall|j: int| 0 <= j < i ==> arr_ref@[j] == orig[j] + 1,
            forall|j: int| i <= j < 10 ==> arr_ref@[j] == orig[j],
        decreases 10 - i,
    {
        assert(arr_ref@[i as int] == orig[i as int] && orig[i as int] < 255);
        arr_ref[i] = arr_ref[i] + 1;
        i = i + 1;
    }
    assert(arr_ref@ =~= incremented(orig));
}

/// Increases every element of `slice` by one.
pub fn increment_slice(slice: &mut [u8])
    requires
        all_below_max(old(slice)@),
    ensures
        final(slice)@ == incremented(old(slice)@),
{
    let ghost orig = slice@;
    let n = slice.len();
    let mut i: usize = 0;
    while i < n
        invariant
            0 <= i <= n,
            n == orig.len(),
            slice@.len() == n,
            all_below_max(orig),
            forall|j: int| 0 <= j < i ==> slice@[j] == orig[j] + 1,
            forall|j: int| i <= j < n ==> slice@[j] == orig[j],
        decreases n - i,
    {
        assert(slice@[i as int] == orig[i as int] && orig[i as int] < 255);
        slice[i] = slice[i] + 1;
        i = i + 1;
    }
    assert(slice@ =~= incremented(orig));
}

} // verus!
