use bblog::chop::{chop_1, chop_3};
use bblog::join::{
    join_slices, join_string_slice_array_str, join_string_slice_array_string,
    join_string_slice_vec_str, join_string_slice_vec_string, join_strings, join_strs,
    join_vector_slice_array_i32,
};
use bblog::reverse::reverse_string;
use bblog::string_conversion::{string_to_vector, vector_to_string};

#[test]
fn string_to_vector_gives_the_utf8_bytes() {
    assert_eq!(string_to_vector("Hello, World!"), b"Hello, World!".to_vec());
    assert_eq!(string_to_vector("é€😀"), "é€😀".as_bytes().to_vec());
    assert_eq!(string_to_vector(""), Vec::<u8>::new());
}

#[test]
fn vector_to_string_decodes_valid_utf8() {
    assert_eq!(vector_to_string(b"Hello, World!"), "Hello, World!");
    assert_eq!(vector_to_string("aé€😀z".as_bytes()), "aé€😀z");
}

#[test]
fn vector_to_string_replaces_ill_formed_sequences_like_from_utf8_lossy() {
    let cases: Vec<Vec<u8>> = vec![
        vec![0x66, 0x80, 0x6f],
        vec![0xe2, 0x82],
        vec![0xe2, 0x82, 0x41],
        vec![0xf0, 0x90, 0x80],
        vec![0xed, 0xa0, 0x80],
        vec![0xc0, 0x80],
        vec![0xc1, 0xbf],
        vec![0xe0, 0x80, 0x80],
        vec![0xf4, 0x90, 0x80, 0x80],
        vec![0xf5, 0x80],
        vec![0xff, 0xfe, 0x41],
        vec![0xf0, 0x9f, 0x98],
        vec![0xf0, 0x9f, 0x98, 0x80, 0xf0],
        vec![0xc3],
    ];
    for bytes in cases {
        assert_eq!(
            vector_to_string(&bytes),
            String::from_utf8_lossy(&bytes).into_owned(),
            "bytes {:?}",
            bytes
        );
    }
    assert_eq!(vector_to_string(&[0x66, 0x80, 0x6f]), "f\u{FFFD}o");
    assert_eq!(vector_to_string(&[0xed, 0xa0, 0x80]), "\u{FFFD}\u{FFFD}\u{FFFD}");
    assert_eq!(vector_to_string(&[0xf0, 0x9f, 0x98]), "\u{FFFD}");
}

#[test]
fn bytes_of_a_string_decode_back_to_it() {
    for s in ["", "Hello, World!", "héllo wörld 😀", "\u{7f}\u{80}\u{7ff}\u{800}\u{ffff}\u{10000}\u{10ffff}"] {
        assert_eq!(vector_to_string(&string_to_vector(s)), s);
    }
}

#[test]
fn chop_1_splits_into_characters() {
    assert_eq!(
        chop_1(String::from("Hello, world!")),
        vec!['H', 'e', 'l', 'l', 'o', ',', ' ', 'w', 'o', 'r', 'l', 'd', '!']
    );
    assert_eq!(chop_1(String::from("é😀")), vec!['é', '😀']);
    assert_eq!(chop_1(String::new()), Vec::<char>::new());
}

#[test]
fn chop_3_pads_the_last_chunk() {
    assert_eq!(
        chop_3(String::from("Hello, world!")),
        vec![
            ['H', 'e', 'l'],
            ['l', 'o', ','],
            [' ', 'w', 'o'],
            ['r', 'l', 'd'],
            ['!', ' ', ' ']
        ]
    );
    assert_eq!(chop_3(String::from("abcdef")), vec![['a', 'b', 'c'], ['d', 'e', 'f']]);
    assert_eq!(chop_3(String::from("ab")), vec![['a', 'b', ' ']]);
    assert_eq!(chop_3(String::new()), Vec::<[char; 3]>::new());
}

#[test]
fn reverse_string_reverses_ascii() {
    assert_eq!(reverse_string(String::from("Hello, world!")), "!dlrow ,olleH");
    assert_eq!(reverse_string(String::new()), "");
    assert_eq!(reverse_string(String::from("a")), "a");
}

#[test]
fn reversing_twice_gives_the_string_back() {
    let s = String::from("the rain in Spain");
    assert_eq!(reverse_string(reverse_string(s.clone())), s);
}

#[test]
fn joins_the_sample_words_and_slices() {
    assert_eq!(join_string_slice_array_str(), "the rain in Spain");
    assert_eq!(join_string_slice_array_string(), "the rain in Spain");
    assert_eq!(join_string_slice_vec_string(), "the rain in Spain");
    assert_eq!(join_string_slice_vec_str(), "the rain in Spain");
    assert_eq!(
        join_vector_slice_array_i32(),
        vec![1, 2, -2, -1, 3, 4, 5, -2, -1, 6, 7, 8, 9]
    );
}

#[test]
fn join_matches_slice_join() {
    let words = ["a", "", "bc"];
    assert_eq!(join_strs(&words, ", "), words.join(", "));
    assert_eq!(join_strs(&[], "-"), "");
    assert_eq!(join_strs(&["solo"], "-"), "solo");
    let owned = vec![String::from("x"), String::from("y")];
    assert_eq!(join_strings(&owned, ""), "xy");
    let parts: [&[i32]; 2] = [&[], &[7]];
    assert_eq!(join_slices(&parts, &[0, 0]), vec![0, 0, 7]);
    assert_eq!(join_slices(&[], &[1]), Vec::<i32>::new());
}
