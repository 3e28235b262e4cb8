//! Reading a name and an age typed at a prompt: trimming white space as
//! `str::trim` does and reading an unsigned number as `u32::from_str` does.

use vstd::prelude::*;

use crate::chop::chars_of;
use crate::numfmt::{decimal, digit_char, lemma_digits_ascii, pow_nat};
use crate::support::push_char;

verus! {

/// The Unicode `White_Space` characters, which `char::is_whitespace` accepts.
pub open spec fn is_white_space(c: char) -> bool {
    ||| ('\u{9}' <= c && c <= '\u{d}')
    ||| c == ' '
    ||| c == '\u{85}'
    ||| c == '\u{a0}'
    ||| c == '\u{1680}'
    ||| ('\u{2000}' <= c && c <= '\u{200a}')
    ||| c == '\u{2028}'
    ||| c == '\u{2029}'
    ||| c == '\u{202f}'
    ||| c == '\u{205f}'
    ||| c == '\u{3000}'
}

/// Whether `c` is white space.
pub fn white_space(c: char) -> (b: bool)
    ensures
        b == is_white_space(c),
{
    ('\u{9}' <= c && c <= '\u{d}') || c == ' ' || c == '\u{85}' || c == '\u{a0}' || c
        == '\u{1680}' || ('\u{2000}' <= c && c <= '\u{200a}') || c == '\u{2028}' || c
        == '\u{2029}' || c == '\u{202f}' || c == '\u{205f}' || c == '\u{3000}'
}

/// `s` without leading and trailing white space.
pub open spec fn trimmed(s: Seq<char>) -> Seq<char>
    decreases s.len(),
{
    if s.len() > 0 && is_white_space(s[0]) {
        trimmed(s.drop_first())
    } else if s.len() > 0 && is_white_space(s.last()) {
        trimmed(s.drop_last())
    } else {
        s
    }
}

/// A sequence that neither starts nor ends with white space is its own trim.
proof fn lemma_trimmed_tail(s: Seq<char>, a: int, b: int)
    requires
        0 <= a <= b <= s.len(),
        forall|j: int| 0 <= j < a ==> is_white_space(#[trigger] s[j]),
        a < b ==> !is_white_space(s[a]),
        forall|j: int| b <= j < s.len() ==> is_white_space(#[trigger] s[j]),
        a == b ==> b == s.len() || a == 0,
    ensures
        trimmed(s.subrange(a, s.len() as int)) == trimmed(s.subrange(a, b)),
    decreases s.len() - b,
{
    if b < s.len() {
        let t = s.subrange(a, s.len() as int);
        if a < b {
            assert(t.len() > 0 && !is_white_space(t[0]));
            assert(t.last() == s[s.len() - 1]);
            assert(t.drop_last() =~= s.drop_last().subrange(a, s.len() - 1));
            lemma_trimmed_tail(s.drop_last(), a, b);
            assert(s.drop_last().subrange(a, b) =~= s.subrange(a, b));
        } else {
            // a == b == 0: every character is white space
            assert(t.len() > 0 && is_white_space(t[0]));
            assert(t.drop_first() =~= s.drop_first().subrange(0, s.len() - 1));
            lemma_trimmed_tail(s.drop_first(), 0, 0);
            assert(s.drop_first().subrange(0, 0) =~= s.subrange(0, 0));
        }
    }
}

proof fn lemma_trimmed_head(s: Seq<char>, a: int)
    requires
        0 <= a <= s.len(),
        forall|j: int| 0 <= j < a ==> is_white_space(#[trigger] s[j]),
    ensures
        trimmed(s) == trimmed(s.subrange(a, s.len() as int)),
    decreases a,
{
    if a > 0 {
        assert(s.drop_first().subrange(a - 1, s.len() - 1) =~= s.subrange(a, s.len() as int));
        lemma_trimmed_head(s.drop_first(), a - 1);
    } else {
        assert(s.subrange(0, s.len() as int) =~= s);
    }
}

proof fn lemma_trimmed_fixed(s: Seq<char>)
    requires
        s.len() == 0 || (!is_white_space(s[0]) && !is_white_space(s.last())),
    ensures
        trimmed(s) == s,
{
}

/// `line` without leading and trailing white space, as `line.trim().to_string()`.
pub fn trim_string(line: &str) -> (s: String)
    ensures
        s@ == trimmed(line@),
{
    let chars = chars_of(line);
    let n = chars.len();
    let mut a: usize = 0;
    while a < n && white_space(chars[a])
        invariant
            0 <= a <= n,
            n == chars@.len(),
            forall|j: int| 0 <= j < a ==> is_white_space(#[trigger] chars@[j]),
        decreases n - a,
    {
        a = a + 1;
    }
    let mut b: usize = n;
    while b > a && white_space(chars[b - 1])
        invariant
            0 <= a <= b <= n,
            n == chars@.len(),
            forall|j: int| b <= j < n ==> is_white_space(#[trigger] chars@[j]),
        decreases b - a,
    {
        b = b - 1;
    }
    proof {
        lemma_trimmed_head(chars@, a as int);
        if a == b && a != 0 {
            assert(b == n);
        }
        lemma_trimmed_tail(chars@, a as int, b as int);
        lemma_trimmed_fixed(chars@.subrange(a as int, b as int));
    }
    let mut s = String::new();
    let mut j = a;
    while j < b
        invariant
            a <= j <= b <= n,
            n == chars@.len(),
            s@ == chars@.subrange(a as int, j as int),
        decreases b - j,
    {
        push_char(&mut s, chars[j]);
        assert(chars@.subrange(a as int, j + 1) =~= chars@.subrange(a as int, j as int).push(
            chars@[j as int],
        ));
        j = j + 1;
    }
    s
}

/// Why a text is not a `u32`, as `std::num::IntErrorKind` names it.
#[derive(PartialEq, Eq, Structural, Clone, Copy, Debug)]
pub enum ParseIntErrorKind {
    /// The text is empty.
    Empty,
    /// The text holds a character that is not a decimal digit.
    InvalidDigit,
    /// The number is larger than `u32::MAX`.
    PosOverflow,
}

/// Whether `c` is a decimal digit.
pub open spec fn is_decimal_digit(c: char) -> bool {
    '0' <= c && c <= '9'
}

/// The value of the decimal digit `c`.
pub open spec fn digit_value(c: char) -> int {
    (c as u32) - ('0' as u32)
}

/// Reads the digits `ds` after the value `acc` read so far, left to right:
/// the first character that is not a digit, or the first digit that takes the
/// value past `u32::MAX`, decides the error.
pub open spec fn parse_digits(acc: int, ds: Seq<char>) -> Result<u32, ParseIntErrorKind>
    decreases ds.len(),
{
    if ds.len() == 0 {
        Ok(acc as u32)
    } else if !is_decimal_digit(ds[0]) {
        Err(ParseIntErrorKind::InvalidDigit)
    } else if acc * 10 + digit_value(ds[0]) > u32::MAX {
        Err(ParseIntErrorKind::PosOverflow)
    } else {
        parse_digits(acc * 10 + digit_value(ds[0]), ds.drop_first())
    }
}

/// What `u32::from_str` gives for `s`: an optional leading '+', then decimal digits.
pub open spec fn parse_u32(s: Seq<char>) -> Result<u32, ParseIntErrorKind> {
    if s.len() == 0 {
        Err(ParseIntErrorKind::Empty)
    } else if (s[0] == '+' || s[0] == '-') && s.len() == 1 {
        Err(ParseIntErrorKind::InvalidDigit)
    } else if s[0] == '+' {
        parse_digits(0, s.drop_first())
    } else {
        parse_digits(0, s)
    }
}

/// Reads `s` as a `u32`.
pub fn parse_u32_str(s: &str) -> (r: Result<u32, ParseIntErrorKind>)
    ensures
        r == parse_u32(s@),
{
    let chars = chars_of(s);
    let n = chars.len();
    if n == 0 {
        return Err(ParseIntErrorKind::Empty);
    }
    if (chars[0] == '+' || chars[0] == '-') && n == 1 {
        return Err(ParseIntErrorKind::InvalidDigit);
    }
    let start: usize = if chars[0] == '+' {
        1
    } else {
        0
    };
    let ghost ds = chars@.subrange(start as int, n as int);
    assert(ds =~= if chars@[0] == '+' {
        s@.drop_first()
    } else {
        s@
    });
    assert(parse_u32(s@) == parse_digits(0, ds));
    let mut acc: u32 = 0;
    let mut i = start;
    while i < n
        invariant
            start <= i <= n,
            n == chars@.len(),
            ds == chars@.subrange(start as int, n as int),
            parse_u32(s@) == parse_digits(0, ds),
            parse_digits(0, ds) == parse_digits(acc as int, chars@.subrange(i as int, n as int)),
        decreases n - i,
    {
        let c = chars[i];
        let ghost rest = chars@.subrange(i as int, n as int);
        assert(rest[0] == c);
        assert(rest.drop_first() =~= chars@.subrange(i + 1, n as int));
        if !('0' <= c && c <= '9') {
            return Err(ParseIntErrorKind::InvalidDigit);
        }
        let d = (c as u32) - ('0' as u32);
        if acc > 429496729 || (acc == 429496729 && d > 5) {
            return Err(ParseIntErrorKind::PosOverflow);
        }
        acc = acc * 10 + d;
        i = i + 1;
    }
    assert(chars@.subrange(i as int, n as int) =~= Seq::<char>::empty());
    Ok(acc)
}

/// The name typed at the prompt: the line without surrounding white space.
pub fn name_from_input(line: &str) -> (name: String)
    ensures
        name@ == trimmed(line@),
{
    trim_string(line)
}

/// The age typed at the prompt: the trimmed line read as a `u32`.
pub fn age_from_input(line: &str) -> (age: Result<u32, ParseIntErrorKind>)
    ensures
        age == parse_u32(trimmed(line@)),
{
    let t = trim_string(line);
    parse_u32_str(t.as_str())
}

/// Reading digits extends the value read so far digit by digit.
proof fn lemma_parse_digits_decimal(n: nat, acc: nat, rest: Seq<char>)
    requires
        acc * pow_nat(10, decimal(n).len()) + n <= u32::MAX,
    ensures
        parse_digits(acc as int, decimal(n) + rest) == parse_digits(
            (acc * pow_nat(10, decimal(n).len()) + n) as int,
            rest,
        ),
    decreases n,
{
    let len = decimal(n).len();
    if n < 10 {
        assert(decimal(n) == seq![digit_char(n)]);
        assert(pow_nat(10, 1) == 10) by {
            reveal_with_fuel(pow_nat, 2);
        }
        let c = digit_char(n);
        assert(c as u32 == 48 + n);
        assert(is_decimal_digit(c));
        assert(digit_value(c) == n);
        assert((decimal(n) + rest)[0] == c);
        assert((decimal(n) + rest).drop_first() =~= rest);
    } else {
        let q = n / 10;
        let d = n % 10;
        assert(decimal(n) == decimal(q).push(digit_char(d)));
        let lq = decimal(q).len();
        assert(len == lq + 1);
        assert(pow_nat(10, len) == 10 * pow_nat(10, lq));
        let p = pow_nat(10, lq);
        assert(acc * (10 * p) + n == (acc * p + q) * 10 + d) by (nonlinear_arith)
            requires
                n == 10 * q + d,
        ;
        assert(acc * p + q <= acc * (10 * p) + n) by (nonlinear_arith)
            requires
                n == 10 * q + d,
                p >= 0,
                acc >= 0,
                q >= 0,
                d >= 0,
        ;
        assert(decimal(n) + rest =~= decimal(q) + (seq![digit_char(d)] + rest));
        lemma_parse_digits_decimal(q, acc, seq![digit_char(d)] + rest);
        let c = digit_char(d);
        assert(c as u32 == 48 + d);
        assert((seq![c] + rest)[0] == c);
        assert((seq![c] + rest).drop_first() =~= rest);
    }
}

/// Reading back a number written in decimal gives the number:
/// `u32::from_str(&n.to_string()) == Ok(n)`.
pub proof fn lemma_parse_decimal(n: u32)
    ensures
        parse_u32(decimal(n as nat)) == Ok::<u32, ParseIntErrorKind>(n),
{
    lemma_digits_ascii(n as nat, 10);
    lemma_decimal_first_is_digit(n as nat);
    lemma_decimal_len_bound(n as nat);
    assert(decimal(n as nat) + Seq::<char>::empty() =~= decimal(n as nat));
    lemma_parse_digits_decimal(n as nat, 0, Seq::<char>::empty());
}

proof fn lemma_decimal_first_is_digit(n: nat)
    ensures
        decimal(n).len() >= 1,
        is_decimal_digit(decimal(n)[0]),
    decreases n,
{
    if n >= 10 {
        lemma_decimal_first_is_digit(n / 10);
        assert(decimal(n)[0] == decimal(n / 10)[0]);
    } else {
        assert(digit_char(n) as u32 == 48 + n);
    }
}

proof fn lemma_decimal_len_bound(n: nat)
    ensures
        n < pow_nat(10, decimal(n).len()),
    decreases n,
{
    if n >= 10 {
        lemma_decimal_len_bound(n / 10);
        let p = pow_nat(10, decimal(n / 10).len());
        assert(pow_nat(10, decimal(n).len()) == 10 * p);
        assert(n < 10 * p) by (nonlinear_arith)
            requires
                n / 10 < p,
                n >= 0,
        ;
    } else {
        assert(pow_nat(10, 1) == 10) by {
            reveal_with_fuel(pow_nat, 2);
        }
    }
}

/// The 25 characters that hold the Unicode `White_Space` property, one by one.
pub open spec fn unicode_white_space() -> Set<char> {
    set![
        '\u{9}', '\u{a}', '\u{b}', '\u{c}', '\u{d}', '\u{20}', '\u{85}', '\u{a0}', '\u{1680}',
        '\u{2000}', '\u{2001}', '\u{2002}', '\u{2003}', '\u{2004}', '\u{2005}', '\u{2006}',
        '\u{2007}', '\u{2008}', '\u{2009}', '\u{200a}', '\u{2028}', '\u{2029}', '\u{202f}',
        '\u{205f}', '\u{3000}'
    ]
}

/// The white-space test accepts exactly the `White_Space` characters.
pub proof fn lemma_white_space_is_unicode(c: char)
    ensures
        is_white_space(c) <==> unicode_white_space().contains(c),
{
    let u = c as u32;
    if '\u{9}' <= c && c <= '\u{d}' {
        assert(u == 9 || u == 10 || u == 11 || u == 12 || u == 13);
        vstd::utf8::char_u32_cast(c, u);
    }
    if '\u{2000}' <= c && c <= '\u{200a}' {
        assert(0x2000 <= u <= 0x200a);
        vstd::utf8::char_u32_cast(c, u);
    }
}

/// Trimming removes white space from both ends and nothing else: the
/// result is a contiguous part `s[a..b]` of the text, everything before `a`
/// and from `b` on is `White_Space`, and the result neither begins nor ends
/// with a `White_Space` character.
pub proof fn lemma_trimmed_shape(s: Seq<char>) -> (ab: (int, int))
    ensures
        0 <= ab.0 <= ab.1 <= s.len(),
        trimmed(s) == s.subrange(ab.0, ab.1),
        forall|j: int| 0 <= j < ab.0 ==> unicode_white_space().contains(#[trigger] s[j]),
        forall|j: int| ab.1 <= j < s.len() ==> unicode_white_space().contains(#[trigger] s[j]),
        trimmed(s).len() > 0 ==> !unicode_white_space().contains(trimmed(s)[0])
            && !unicode_white_space().contains(trimmed(s).last()),
    decreases s.len(),
{
    if s.len() > 0 && is_white_space(s[0]) {
        let t = s.drop_first();
        let (a, b) = lemma_trimmed_shape(t);
        lemma_white_space_is_unicode(s[0]);
        assert(t.subrange(a, b) =~= s.subrange(a + 1, b + 1));
        assert forall|j: int| 0 <= j < a + 1 implies unicode_white_space().contains(#[trigger] s[j]) by {
            if j > 0 {
                assert(s[j] == t[j - 1]);
            }
        }
        assert forall|j: int| b + 1 <= j < s.len() implies unicode_white_space().contains(
            #[trigger] s[j],
        ) by {
            assert(s[j] == t[j - 1]);
        }
        (a + 1, b + 1)
    } else if s.len() > 0 && is_white_space(s.last()) {
        let t = s.drop_last();
        let (a, b) = lemma_trimmed_shape(t);
        lemma_white_space_is_unicode(s.last());
        assert(t.subrange(a, b) =~= s.subrange(a, b));
        assert forall|j: int| 0 <= j < a implies unicode_white_space().contains(#[trigger] s[j]) by {
            assert(s[j] == t[j]);
        }
        assert forall|j: int| b <= j < s.len() implies unicode_white_space().contains(
            #[trigger] s[j],
        ) by {
            if j < s.len() - 1 {
                assert(s[j] == t[j]);
            }
        }
        (a, b)
    } else {
        assert(s.subrange(0, s.len() as int) =~= s);
        if s.len() > 0 {
            lemma_white_space_is_unicode(s[0]);
            lemma_white_space_is_unicode(s.last());
        }
        (0, s.len() as int)
    }
}

} // verus!
