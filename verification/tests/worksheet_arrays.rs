use bblog::increment::{increment_array, increment_array_ref, increment_slice};
use bblog::occurrence::find_num_occurrence_slice;

#[test]
fn counts_each_value_of_the_sample_array() {
    let array = [4u8, 5, 6, 7, 8, 9, 5, 5, 6, 10];
    assert_eq!(find_num_occurrence_slice(5, &array), 3);
    assert_eq!(find_num_occurrence_slice(6, &array), 2);
    assert_eq!(find_num_occurrence_slice(4, &array), 1);
    assert_eq!(find_num_occurrence_slice(11, &array), 0);
}

#[test]
fn counts_nothing_in_an_empty_slice() {
    assert_eq!(find_num_occurrence_slice(0, &[]), 0);
}

#[test]
fn increments_an_array_by_value() {
    let array: [u8; 10] = [4, 5, 6, 7, 8, 9, 5, 5, 6, 10];
    assert_eq!(increment_array(array), [5, 6, 7, 8, 9, 10, 6, 6, 7, 11]);
    assert_eq!(array, [4, 5, 6, 7, 8, 9, 5, 5, 6, 10]);
}

#[test]
fn increments_an_array_in_place() {
    let mut array1: [u8; 10] = [4, 5, 6, 7, 8, 9, 5, 5, 6, 10];
    increment_array_ref(&mut array1);
    assert_eq!(array1, [5, 6, 7, 8, 9, 10, 6, 6, 7, 11]);
}

#[test]
fn increments_a_slice_in_place() {
    let mut array2: [u8; 10] = [4, 5, 6, 7, 8, 9, 5, 5, 6, 10];
    increment_slice(&mut array2[2..5]);
    assert_eq!(array2, [4, 5, 7, 8, 9, 9, 5, 5, 6, 10]);
    let mut empty: [u8; 0] = [];
    increment_slice(&mut empty);
    let mut top = [254u8, 0];
    increment_slice(&mut top);
    assert_eq!(top, [255, 1]);
}
