use std::num::IntErrorKind;
use std::str::FromStr;

use bblog::file_lines::{arrow_report, lines_of, reversed_arrow_report};
use bblog::hex_dump::{hex_dump, zero_padded};
use bblog::prompt::{age_from_input, name_from_input, parse_u32_str, ParseIntErrorKind};

#[test]
fn lines_split_like_str_lines() {
    for text in ["foo\r\nbar\n\nbaz\r", "a\n", "", "\n", "\n\n", "one", "x\r\n\r\ny", "é\nü\r\n"] {
        let expected: Vec<String> = text.lines().map(|l| l.to_string()).collect();
        assert_eq!(lines_of(text), expected, "text {:?}", text);
    }
    assert_eq!(lines_of("foo\r\nbar\n\nbaz\r"), vec!["foo", "bar", "", "baz\r"]);
}

#[test]
fn arrow_report_prints_lines_last_first_with_byte_lengths() {
    assert_eq!(
        arrow_report("ab\ncd\n"),
        vec![">>>cd<<< | 2", ">>>ab<<< | 2"]
    );
    assert_eq!(arrow_report("é\n\nlong line here"), vec![
        ">>>long line here<<< | 14",
        ">>><<< | 0",
        ">>>é<<< | 2"
    ]);
    assert_eq!(arrow_report(""), Vec::<String>::new());
}

#[test]
fn reversed_arrow_report_reverses_each_line() {
    assert_eq!(
        reversed_arrow_report("abc\nde"),
        vec![">>>cba<<< | 3", ">>>ed<<< | 2"]
    );
    assert_eq!(reversed_arrow_report("1234567890\r\n"), vec![">>>0987654321<<< | 10"]);
}

#[test]
fn zero_padded_pads_to_eight() {
    assert_eq!(zero_padded(String::from("ff")), "000000ff");
    assert_eq!(zero_padded(String::from("")), "00000000");
    assert_eq!(zero_padded(String::from("12345678")), "12345678");
}

#[test]
fn hex_dump_of_sixteen_bytes() {
    assert_eq!(
        hex_dump("0123456789abcdef"),
        "00000000  3031 3233 3435 3637 3839 6162 6364 6566  |0123456789abcdef|\n"
    );
}

#[test]
fn hex_dump_repeats_the_last_sixteen_characters_on_a_short_last_line() {
    let data = "Hello, world!\nThis is ok.\n";
    let expected = String::from(
        "00000000  4865 6c6c 6f2c 2077 6f72 6c64 210a 5468  |Hello, world!.Th|\n",
    ) + "00000010  6973 2069 7320 6f6b 2e0a  |ld!.This is ok..|\n";
    assert_eq!(data.len(), 26);
    assert_eq!(hex_dump(data), expected);
    assert_eq!(hex_dump(""), "");
}

#[test]
fn hex_dump_shows_second_offset_in_hex() {
    let data: String = std::iter::repeat('A').take(32).collect();
    let line = "4141 4141 4141 4141 4141 4141 4141 4141  |AAAAAAAAAAAAAAAA|\n";
    assert_eq!(hex_dump(&data), format!("00000000  {line}00000010  {line}"));
}

#[test]
fn name_is_the_trimmed_line() {
    assert_eq!(name_from_input("  Alice \n"), "Alice");
    assert_eq!(name_from_input("\u{3000}Bob\u{85}\r\n"), "Bob");
    assert_eq!(name_from_input(" \t\n"), "");
    assert_eq!(name_from_input("Ann Lee"), "Ann Lee");
}

#[test]
fn age_is_the_trimmed_line_as_u32() {
    assert_eq!(age_from_input("42\n"), Ok(42));
    assert_eq!(age_from_input("  +7 "), Ok(7));
    assert_eq!(age_from_input("\n"), Err(ParseIntErrorKind::Empty));
    assert_eq!(age_from_input("abc"), Err(ParseIntErrorKind::InvalidDigit));
    assert_eq!(age_from_input("-5"), Err(ParseIntErrorKind::InvalidDigit));
    assert_eq!(age_from_input("-"), Err(ParseIntErrorKind::InvalidDigit));
    assert_eq!(age_from_input("4294967296"), Err(ParseIntErrorKind::PosOverflow));
    assert_eq!(age_from_input("4294967295"), Ok(4294967295));
    assert_eq!(age_from_input("1 2"), Err(ParseIntErrorKind::InvalidDigit));
}

#[test]
fn parse_u32_agrees_with_from_str() {
    for s in ["0", "007", "+", "+0", "-0", "", "12a", "99999999999", "99999999999a", "4294967295", "٣", "+-1"] {
        let ours = parse_u32_str(s);
        let std_result = u32::from_str(s).map_err(|e| match e.kind() {
            IntErrorKind::Empty => ParseIntErrorKind::Empty,
            IntErrorKind::InvalidDigit => ParseIntErrorKind::InvalidDigit,
            IntErrorKind::PosOverflow => ParseIntErrorKind::PosOverflow,
            other => panic!("unexpected {:?}", other),
        });
        assert_eq!(ours, std_result, "input {:?}", s);
    }
}

#[test]
fn padded_offsets_read_back_in_base_16() {
    for n in [0usize, 1, 15, 16, 255, 0x1234_abcd, 0xffff_ffff] {
        let r = zero_padded(format!("{:x}", n));
        assert_eq!(r.len(), 8);
        assert_eq!(usize::from_str_radix(&r, 16), Ok(n));
    }
}
