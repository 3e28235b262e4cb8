use bblog::param_type_str;
use bblog::param_type_string_1;
use bblog::param_type_string_2;
use bblog::return_type_str;
use bblog::split_string_return_parts::{f1, f3, g1, g3};

#[test]
fn str_parameter_drops_two_bytes() {
    assert_eq!(param_type_str::f("hello"), "llo");
    assert_eq!(param_type_str::f(&String::from("hello")), "llo");
    assert_eq!(param_type_str::f("éa"), "a");
    assert_eq!(param_type_str::f("ab"), "");
}

#[test]
fn string_parameter_appends_world() {
    let orig = String::from("hello");
    assert_eq!(param_type_string_1::f(orig.clone()), "helloworld");
    assert_eq!(param_type_string_1::g(orig.clone()), "helloworld");
    assert_eq!(param_type_string_1::f(String::new()), "world");
}

#[test]
fn string_reference_parameter_drops_two_bytes() {
    let string: String = String::from("hello");
    assert_eq!(param_type_string_2::f(&string), "llo");
}

#[test]
fn returned_slices_keep_their_text() {
    assert_eq!(return_type_str::f1(), "Hello, world!");
    assert_eq!(return_type_str::f2(String::from("Hello, world!")), "Hello, world!");
    let r: String = String::from("Hello, world!");
    assert_eq!(return_type_str::f3(&r), "Hello, world!");
    assert_eq!(return_type_str::f4("Hello, world!"), "Hello, world!");
}

#[test]
fn splits_at_bytes_four_and_eight() {
    let s = "the rain in Spain";
    assert_eq!(f1(s), ["the ", "rain", " in Spain"]);
    assert_eq!(f3(s), vec!["the ", "rain", " in Spain"]);
    assert_eq!(
        g1(s),
        [String::from("the "), String::from("rain"), String::from(" in Spain")]
    );
    assert_eq!(
        g3(s),
        vec![String::from("the "), String::from("rain"), String::from(" in Spain")]
    );
    assert_eq!(f1("12345678"), ["1234", "5678", ""]);
    assert_eq!(f1("éé€x!"), ["éé", "€x", "!"]);
}
