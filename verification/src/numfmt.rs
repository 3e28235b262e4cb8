//! Writing unsigned integers in decimal and in lower-case hexadecimal,
//! as `format!("{}", n)` and `format!("{:x}", n)` do.

use vstd::prelude::*;

use crate::support::push_char;

verus! {

/// The digit character for `d` in base 16 and below, lower case.
pub open spec fn digit_char(d: nat) -> char {
    if d < 10 {
        (('0' as u32) + d) as char
    } else {
        (('a' as u32) + d - 10) as char
    }
}

/// The digits of `n` in base `base`, most significant first, without leading zeros.
pub open spec fn digits(n: nat, base: nat) -> Seq<char>
    recommends
        2 <= base <= 16,
    decreases n,
{
    if base < 2 || n < base {
        seq![digit_char(n)]
    } else {
        proof {
            assert(n / base < n) by (nonlinear_arith)
                requires
                    n >= base,
                    base >= 2,
            ;
        }
        digits(n / base, base).push(digit_char(n % base))
    }
}

/// `n` written in decimal.
pub open spec fn decimal(n: nat) -> Seq<char> {
    digits(n, 10)
}

/// `n` written in lower-case hexadecimal.
pub open spec fn hex(n: nat) -> Seq<char> {
    digits(n, 16)
}

fn digit_to_char(d: u64) -> (c: char)
    requires
        d < 16,
    ensures
        c == digit_char(d as nat),
{
    let c: char = if d < 10 {
        match d {
            0 => '0',
            1 => '1',
            2 => '2',
            3 => '3',
            4 => '4',
            5 => '5',
            6 => '6',
            7 => '7',
            8 => '8',
            _ => '9',
        }
    } else {
        match d {
            10 => 'a',
            11 => 'b',
            12 => 'c',
            13 => 'd',
            14 => 'e',
            _ => 'f',
        }
    };
    c
}

/// The digits of `n` in base `base` as a string.
pub fn format_digits(n: u64, base: u64) -> (s: String)
    requires
        2 <= base <= 16,
    ensures
        s@ == digits(n as nat, base as nat),
    decreases n,
{
    if n < base {
        let mut s = String::new();
        push_char(&mut s, digit_to_char(n));
        assert(s@ =~= seq![digit_char(n as nat)]);
        s
    } else {
        assert(n / base < n) by (nonlinear_arith)
            requires
                n >= base,
                base >= 2,
        ;
        let mut s = format_digits(n / base, base);
        push_char(&mut s, digit_to_char(n % base));
        s
    }
}

/// `n` in decimal, as `n.to_string()` writes it.
pub fn decimal_string(n: u64) -> (s: String)
    ensures
        s@ == decimal(n as nat),
{
    format_digits(n, 10)
}

/// `n` in lower-case hexadecimal, as `format!("{:x}", n)` writes it.
pub fn hex_string(n: u64) -> (s: String)
    ensures
        s@ == hex(n as nat),
{
    format_digits(n, 16)
}

/// `base` raised to the power `k`.
pub open spec fn pow_nat(base: nat, k: nat) -> nat
    decreases k,
{
    if k == 0 {
        1
    } else {
        base * pow_nat(base, (k - 1) as nat)
    }
}

/// Every digit string holds at least one character and only ASCII characters.
pub proof fn lemma_digits_ascii(n: nat, base: nat)
    requires
        2 <= base <= 16,
    ensures
        digits(n, base).len() >= 1,
        vstd::utf8::is_ascii_chars(digits(n, base)),
    decreases n,
{
    if n >= base {
        lemma_digits_ascii(n / base, base);
        let d = digits(n, base);
        assert forall|i: int| 0 <= i < d.len() implies '\0' <= #[trigger] d[i] <= '\u{7f}' by {
            if i < digits(n / base, base).len() {
                assert(d[i] == digits(n / base, base)[i]);
            }
        }
    }
}

/// A number below `base^k` (for `k >= 1`) has at most `k` digits.
pub proof fn lemma_digits_len_bound(n: nat, base: nat, k: nat)
    requires
        2 <= base <= 16,
        k >= 1,
        n < pow_nat(base, k),
    ensures
        digits(n, base).len() <= k,
    decreases k,
{
    if n >= base {
        let b1 = pow_nat(base, (k - 1) as nat);
        assert(n / base < b1) by (nonlinear_arith)
            requires
                n < base * b1,
                base >= 2,
        ;
        assert(n / base >= 1) by (nonlinear_arith)
            requires
                n >= base,
                base >= 2,
        ;
        if k > 1 {
            lemma_digits_len_bound(n / base, base, (k - 1) as nat);
        }
    }
}

/// The value of a digit character in base 16 and below, lower case.
pub open spec fn char_digit_value(c: char) -> int {
    if '0' <= c && c <= '9' {
        (c as u32) - ('0' as u32)
    } else {
        (c as u32) - ('a' as u32) + 10
    }
}

/// True when `c` is a digit in base `base` (up to 16), lower case.
pub open spec fn is_base_digit(c: char, base: nat) -> bool {
    0 <= char_digit_value(c) < base && (('0' <= c && c <= '9') || ('a' <= c && c <= 'f'))
}

/// The number that the digit string `s` denotes in base `base`.
pub open spec fn digits_value(s: Seq<char>, base: nat) -> int
    decreases s.len(),
{
    if s.len() == 0 {
        0
    } else {
        digits_value(s.drop_last(), base) * base + char_digit_value(s.last())
    }
}

/// Reading the digits of `n` back gives `n`, and every one is a digit of the base.
pub proof fn lemma_digits_value(n: nat, base: nat)
    requires
        2 <= base <= 16,
    ensures
        digits_value(digits(n, base), base) == n,
        forall|i: int|
            0 <= i < digits(n, base).len() ==> is_base_digit(#[trigger] digits(n, base)[i], base),
    decreases n,
{
    if n < base {
        assert(digits(n, base).drop_last() =~= Seq::<char>::empty());
        assert(digits_value(Seq::<char>::empty(), base) == 0);
        lemma_digit_char_value(n, base);
        assert(digits(n, base).last() == digit_char(n));
    } else {
        let q = n / base;
        let d = n % base;
        assert(n / base < n) by (nonlinear_arith)
            requires
                n >= base,
                base >= 2,
        ;
        lemma_digits_value(q, base);
        lemma_digit_char_value(d, base);
        assert(digits(n, base).drop_last() =~= digits(q, base));
        assert(digits(n, base).last() == digit_char(d));
        assert(digits_value(digits(n, base), base) == digits_value(digits(q, base), base) * base
            + char_digit_value(digit_char(d)));
        assert(q * base + d == n) by (nonlinear_arith)
            requires
                q == n / base,
                d == n % base,
                base > 0,
        ;
        assert forall|i: int| 0 <= i < digits(n, base).len() implies is_base_digit(
            #[trigger] digits(n, base)[i],
            base,
        ) by {
            if i < digits(q, base).len() {
                assert(digits(n, base)[i] == digits(q, base)[i]);
            }
        }
    }
}

proof fn lemma_digit_char_value(d: nat, base: nat)
    requires
        d < base <= 16,
    ensures
        char_digit_value(digit_char(d)) == d,
        is_base_digit(digit_char(d), base),
{
    if d < 10 {
        assert(digit_char(d) as u32 == 48 + d);
    } else {
        assert(digit_char(d) as u32 == 97 + d - 10);
    }
}

/// Leading zeros do not change the value of a digit string.
pub proof fn lemma_leading_zeros_value(k: nat, s: Seq<char>, base: nat)
    ensures
        digits_value(Seq::new(k, |i: int| '0') + s, base) == digits_value(s, base),
    decreases s.len(), k,
{
    let z = Seq::new(k, |i: int| '0');
    if s.len() == 0 {
        assert(z + s =~= z);
        if k > 0 {
            let z1 = Seq::new((k - 1) as nat, |i: int| '0');
            assert(z.drop_last() =~= z1 + s);
            lemma_leading_zeros_value((k - 1) as nat, s, base);
            assert(z1 + s =~= z1);
        }
    } else {
        assert((z + s).drop_last() =~= z + s.drop_last());
        assert((z + s).last() == s.last());
        lemma_leading_zeros_value(k, s.drop_last(), base);
    }
}

} // verus!
