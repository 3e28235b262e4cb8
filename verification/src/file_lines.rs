//! Splitting text into lines, as `str::lines` does, and the two reports that
//! print each line of a file between arrows with its length in bytes.

use vstd::prelude::*;
use vstd::string::*;
use vstd::utf8::*;

use crate::chop::chars_of;
use crate::numfmt::{
    decimal, decimal_string, digits_value, is_base_digit, lemma_digits_ascii, lemma_digits_value,
};
use crate::reverse::reverse_string;
use crate::support::push_char;

verus! {

/// Index of the first '\n' in `s`, or `s.len()` when there is none.
pub open spec fn first_newline(s: Seq<char>) -> int
    decreases s.len(),
{
    if s.len() == 0 {
        0
    } else if s[0] == '\n' {
        0
    } else {
        1 + first_newline(s.drop_first())
    }
}

/// `line` without one trailing carriage return.
pub open spec fn strip_cr(line: Seq<char>) -> Seq<char> {
    if line.len() > 0 && line.last() == '\r' {
        line.drop_last()
    } else {
        line
    }
}

/// The lines of `s`: split at each '\n', a '\r' just before a '\n' dropped,
/// and no empty line after a final '\n'.
pub open spec fn text_lines(s: Seq<char>) -> Seq<Seq<char>>
    decreases s.len(),
{
    if s.len() == 0 {
        seq![]
    } else {
        let k = first_newline(s);
        if k >= s.len() {
            seq![s]
        } else {
            proof {
                lemma_first_newline_bounds(s);
            }
            seq![strip_cr(s.take(k))] + text_lines(s.skip(k + 1))
        }
    }
}

/// Where the first newline lies, and that none comes before it.
pub proof fn lemma_first_newline_bounds(s: Seq<char>)
    ensures
        0 <= first_newline(s) <= s.len(),
        forall|j: int| 0 <= j < first_newline(s) ==> s[j] != '\n',
        first_newline(s) < s.len() ==> s[first_newline(s)] == '\n',
    decreases s.len(),
{
    if s.len() > 0 && s[0] != '\n' {
        lemma_first_newline_bounds(s.drop_first());
        assert forall|j: int| 0 <= j < first_newline(s) implies s[j] != '\n' by {
            if j > 0 {
                assert(s[j] == s.drop_first()[j - 1]);
            }
        }
    }
}

proof fn lemma_first_newline_at(s: Seq<char>, k: int)
    requires
        0 <= k <= s.len(),
        forall|j: int| 0 <= j < k ==> s[j] != '\n',
        k < s.len() ==> s[k] == '\n',
    ensures
        first_newline(s) == k,
{
    lemma_first_newline_bounds(s);
}

/// Every line of an ASCII text is ASCII.
pub proof fn lemma_lines_ascii(s: Seq<char>)
    requires
        is_ascii_chars(s),
    ensures
        forall|i: int| 0 <= i < text_lines(s).len() ==> is_ascii_chars(#[trigger] text_lines(s)[i]),
    decreases s.len(),
{
    if s.len() > 0 {
        let k = first_newline(s);
        lemma_first_newline_bounds(s);
        if k < s.len() {
            let rest = s.skip(k + 1);
            assert(is_ascii_chars(rest)) by {
                assert forall|j: int| 0 <= j < rest.len() implies '\0' <= #[trigger] rest[j]
                    <= '\u{7f}' by {
                    assert(rest[j] == s[j + k + 1]);
                }
            }
            lemma_lines_ascii(rest);
            assert forall|i: int| 0 <= i < text_lines(s).len() implies is_ascii_chars(
                #[trigger] text_lines(s)[i],
            ) by {
                if i > 0 {
                    assert(text_lines(s)[i] == text_lines(rest)[i - 1]);
                }
            }
        }
    }
}

/// The characters `chars[a..b]` as a string.
fn string_from_range(chars: &Vec<char>, a: usize, b: usize) -> (s: String)
    requires
        a <= b <= chars@.len(),
    ensures
        s@ == chars@.subrange(a as int, b as int),
{
    let mut s = String::new();
    let mut j = a;
    while j < b
        invariant
            a <= j <= b <= chars@.len(),
            s@ == chars@.subrange(a as int, j as int),
        decreases b - j,
    {
        push_char(&mut s, chars[j]);
        assert(chars@.subrange(a as int, j + 1) =~= chars@.subrange(a as int, j as int).push(
            chars@[j as int],
        ));
        j = j + 1;
    }
    s
}

/// The lines of `data`, as `data.lines()` yields them.
pub fn lines_of(data: &str) -> (out: Vec<String>)
    ensures
        out@.len() == text_lines(data@).len(),
        forall|i: int| 0 <= i < out@.len() ==> (#[trigger] out@[i])@ == text_lines(data@)[i],
{
    let chars = chars_of(data);
    let n = chars.len();
    let ghost s = data@;
    let mut out: Vec<String> = Vec::new();
    let mut st: usize = 0;
    let mut i: usize = 0;
    assert(s.skip(0) =~= s);
    while i < n
        invariant
            0 <= st <= i <= n,
            n == s.len(),
            chars@ == s,
            forall|j: int| st <= j < i ==> s[j] != '\n',
            forall|k: int| 0 <= k < out@.len() ==> (#[trigger] out@[k])@ == text_lines(s)[k],
            text_lines(s) == out@.map_values(|l: String| l@) + text_lines(s.skip(st as int)),
        decreases n - i,
    {
        if chars[i] == '\n' {
            let ghost rest = s.skip(st as int);
            proof {
                lemma_first_newline_at(rest, i - st);
                assert(rest.take(i - st) =~= s.subrange(st as int, i as int));
                assert(rest.skip(i - st + 1) =~= s.skip(i + 1));
            }
            let end = if i > st && chars[i - 1] == '\r' {
                i - 1
            } else {
                i
            };
            let line = string_from_range(&chars, st, end);
            assert(line@ =~= strip_cr(s.subrange(st as int, i as int)));
            let ghost prev = out@;
            out.push(line);
            assert(out@.map_values(|l: String| l@) =~= prev.map_values(|l: String| l@).push(line@));
            st = i + 1;
        }
        i = i + 1;
    }
    if st < n {
        let ghost rest = s.skip(st as int);
        proof {
            lemma_first_newline_at(rest, n - st);
        }
        let line = string_from_range(&chars, st, n);
        assert(line@ =~= rest);
        let ghost prev = out@;
        out.push(line);
        assert(out@.map_values(|l: String| l@) =~= prev.map_values(|l: String| l@).push(line@));
    } else {
        assert(s.skip(st as int) =~= Seq::<char>::empty());
    }
    assert(out@.map_values(|l: String| l@) =~= text_lines(s));
    proof {
        assert forall|k: int| 0 <= k < out@.len() implies (#[trigger] out@[k])@ == text_lines(
            s,
        )[k] by {
            assert(out@.map_values(|l: String| l@)[k] == out@[k]@);
        }
    }
    out
}

/// `>>>shown<<< | len`: a line between arrows followed by a length.
pub open spec fn arrow_line(shown: Seq<char>, len: nat) -> Seq<char> {
    seq!['>', '>', '>'] + shown + seq!['<', '<', '<', ' ', '|', ' '] + decimal(len)
}

fn arrow_string(shown: &String, len: usize) -> (s: String)
    ensures
        s@ == arrow_line(shown@, len as nat),
{
    let mut s = String::new();
    push_char(&mut s, '>');
    push_char(&mut s, '>');
    push_char(&mut s, '>');
    s = s.concat(shown.as_str());
    push_char(&mut s, '<');
    push_char(&mut s, '<');
    push_char(&mut s, '<');
    push_char(&mut s, ' ');
    push_char(&mut s, '|');
    push_char(&mut s, ' ');
    let d = decimal_string(len as u64);
    s = s.concat(d.as_str());
    assert(s@ =~= arrow_line(shown@, len as nat));
    s
}

/// The lines of a file, last line first, each as `>>>line<<< | n` where `n`
/// is the line's length in bytes.
pub fn arrow_report(data: &str) -> (out: Vec<String>)
    ensures
        out@.len() == text_lines(data@).len(),
        forall|j: int|
            0 <= j < out@.len() ==> (#[trigger] out@[j])@ == ({
                let line = text_lines(data@)[out@.len() - 1 - j];
                arrow_line(line, encode_utf8(line).len())
            }),
{
    let lines = lines_of(data);
    let m = lines.len();
    let mut out: Vec<String> = Vec::new();
    let mut j: usize = 0;
    while j < m
        invariant
            0 <= j <= m,
            m == lines@.len(),
            m == text_lines(data@).len(),
            forall|i: int| 0 <= i < m ==> (#[trigger] lines@[i])@ == text_lines(data@)[i],
            out@.len() == j,
            forall|k: int|
                0 <= k < j ==> (#[trigger] out@[k])@ == ({
                    let line = text_lines(data@)[m - 1 - k];
                    arrow_line(line, encode_utf8(line).len())
                }),
        decreases m - j,
    {
        let line = &lines[m - 1 - j];
        let len = line.as_str().as_bytes().len();
        out.push(arrow_string(line, len));
        j = j + 1;
    }
    out
}

/// The lines of an ASCII file, in order, each reversed and shown as
/// `>>>enil<<< | n` where `n` is the line's length in bytes.
pub fn reversed_arrow_report(data: &str) -> (out: Vec<String>)
    requires
        is_ascii_chars(data@),
    ensures
        out@.len() == text_lines(data@).len(),
        forall|j: int|
            0 <= j < out@.len() ==> (#[trigger] out@[j])@ == ({
                let line = text_lines(data@)[j];
                arrow_line(line.reverse(), line.len())
            }),
{
    let lines = lines_of(data);
    proof {
        lemma_lines_ascii(data@);
    }
    let m = lines.len();
    let mut out: Vec<String> = Vec::new();
    let mut j: usize = 0;
    while j < m
        invariant
            0 <= j <= m,
            m == lines@.len(),
            m == text_lines(data@).len(),
            forall|i: int| 0 <= i < m ==> (#[trigger] lines@[i])@ == text_lines(data@)[i],
            forall|i: int|
                0 <= i < text_lines(data@).len() ==> is_ascii_chars(#[trigger] text_lines(data@)[i]),
            out@.len() == j,
            forall|k: int|
                0 <= k < j ==> (#[trigger] out@[k])@ == ({
                    let line = text_lines(data@)[k];
                    arrow_line(line.reverse(), line.len())
                }),
        decreases m - j,
    {
        let line = lines[j].clone();
        assert(line@ == text_lines(data@)[j as int]);
        let len = line.as_str().as_bytes().len();
        proof {
            is_ascii_chars_encode_utf8(line@);
        }
        let rev = reverse_string(line);
        out.push(arrow_string(&rev, len));
        j = j + 1;
    }
    out
}

/// A report line is the shown text between the arrows, then `" | "`, then
/// the length written in decimal: digits whose value is exactly the length.
pub proof fn lemma_arrow_line_length_reads_back(shown: Seq<char>, len: nat)
    ensures
        arrow_line(shown, len).subrange(0, 3) == seq!['>', '>', '>'],
        arrow_line(shown, len).subrange(3, 3 + shown.len() as int) == shown,
        arrow_line(shown, len).subrange(3 + shown.len() as int, 9 + shown.len() as int) == seq![
            '<',
            '<',
            '<',
            ' ',
            '|',
            ' ',
        ],
        arrow_line(shown, len).len() > 9 + shown.len() as int,
        digits_value(arrow_line(shown, len).skip(9 + shown.len() as int), 10) == len,
        forall|i: int|
            9 + shown.len() as int <= i < arrow_line(shown, len).len() ==> is_base_digit(
                #[trigger] arrow_line(shown, len)[i],
                10,
            ),
{
    let line = arrow_line(shown, len);
    lemma_digits_value(len, 10);
    lemma_digits_ascii(len, 10);
    assert(line.subrange(0, 3) =~= seq!['>', '>', '>']);
    assert(line.subrange(3, 3 + shown.len() as int) =~= shown);
    assert(line.subrange(3 + shown.len() as int, 9 + shown.len() as int) =~= seq!['<', '<', '<', ' ', '|', ' ']);
    assert(line.skip(9 + shown.len() as int) =~= decimal(len));
    assert forall|i: int| 9 + shown.len() as int <= i < line.len() implies is_base_digit(
        #[trigger] line[i],
        10,
    ) by {
        assert(line[i] == decimal(len)[i - 9 - shown.len()]);
    }
}

} // verus!
