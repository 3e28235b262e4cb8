//! The hex dump that prints a file sixteen bytes per line: offset, bytes in
//! hexadecimal, and the same bytes as text between bars.

use vstd::prelude::*;
use vstd::string::*;
use vstd::utf8::*;

use crate::chop::chars_of;
use crate::numfmt::{
    digits_value, hex, hex_string, is_base_digit, lemma_digits_ascii, lemma_digits_len_bound,
    lemma_digits_value, lemma_leading_zeros_value, pow_nat,
};
use crate::support::push_char;

verus! {

/// `s` preceded by as many '0' as bring its UTF-8 length up to eight bytes.
pub open spec fn zero_pad(s: Seq<char>) -> Seq<char> {
    Seq::new((8 - encode_utf8(s).len()) as nat, |i: int| '0') + s
}

/// Pads `s` on the left with zeros to eight bytes.
pub fn zero_padded(s: String) -> (out: String)
    requires
        encode_utf8(s@).len() <= 8,
    ensures
        out@ == zero_pad(s@),
{
    let mut out: String = String::new();
    let len = s.as_str().as_bytes().len();
    let mut k: usize = 0;
    while k < 8 - len
        invariant
            len == encode_utf8(s@).len(),
            len <= 8,
            0 <= k <= 8 - len,
            out@ == Seq::new(k as nat, |i: int| '0'),
        decreases 8 - len - k,
    {
        push_char(&mut out, '0');
        k = k + 1;
        assert(out@ =~= Seq::new(k as nat, |i: int| '0'));
    }
    out = out.concat(s.as_str());
    out
}

/// A byte as two hexadecimal digits, as `format!("{:02x}", b)` writes it.
pub open spec fn byte_hex(b: u8) -> Seq<char> {
    if b < 16 {
        seq!['0'] + hex(b as nat)
    } else {
        hex(b as nat)
    }
}

/// The characters a line of the dump shows for the file's text: each
/// newline shown as '.'.
pub open spec fn shown_text(chars: Seq<char>) -> Seq<char> {
    Seq::new(chars.len(), |i: int| if chars[i] == '\n' { '.' } else { chars[i] })
}

/// What the dump prints for byte `i` of `bytes`, whose text is shown as `text`.
pub open spec fn dump_piece(bytes: Seq<u8>, text: Seq<char>, i: int) -> Seq<char> {
    let n = bytes.len();
    (if i % 16 == 0 {
        zero_pad(hex(i as nat)) + seq![' ', ' ']
    } else {
        seq![]
    }) + byte_hex(bytes[i]) + (if (i % 16 + 1) % 2 == 0 {
        seq![' ']
    } else {
        seq![]
    }) + (if i % 16 == 15 || i == n - 1 {
        seq![' ', '|'] + text.subrange(i + 1 - 16, i + 1) + seq!['|', '\n']
    } else {
        seq![]
    })
}

/// What the dump prints for the first `k` bytes.
pub open spec fn dump_prefix(bytes: Seq<u8>, text: Seq<char>, k: int) -> Seq<char>
    decreases k,
{
    if k <= 0 {
        seq![]
    } else {
        dump_prefix(bytes, text, k - 1) + dump_piece(bytes, text, k - 1)
    }
}

/// The whole dump of a file whose contents are `data`.
pub open spec fn dump_of(data: Seq<char>) -> Seq<char> {
    dump_prefix(encode_utf8(data), shown_text(data), encode_utf8(data).len() as int)
}

/// The inputs the dump handles: an empty file, or an ASCII file of at least
/// sixteen bytes whose offsets fit in eight hexadecimal digits.
pub open spec fn dumpable(data: Seq<char>) -> bool {
    data.len() == 0 || (is_ascii_chars(data) && 16 <= data.len() <= 0x1_0000_0000)
}

fn byte_hex_string(b: u8) -> (s: String)
    ensures
        s@ == byte_hex(b),
{
    let h = hex_string(b as u64);
    if b < 16 {
        let mut s = String::new();
        push_char(&mut s, '0');
        s.concat(h.as_str())
    } else {
        h
    }
}

/// The offset column: `i` as eight hexadecimal digits and two spaces.
fn offset_column(i: usize) -> (s: String)
    requires
        i < 0x1_0000_0000,
    ensures
        s@ == zero_pad(hex(i as nat)) + seq![' ', ' '],
{
    let h = hex_string(i as u64);
    proof {
        assert(pow_nat(16, 8) == 0x1_0000_0000) by {
            reveal_with_fuel(pow_nat, 9);
        }
        lemma_digits_len_bound(i as nat, 16, 8);
        lemma_digits_ascii(i as nat, 16);
        is_ascii_chars_encode_utf8(h@);
    }
    let mut s = zero_padded(h);
    push_char(&mut s, ' ');
    push_char(&mut s, ' ');
    s
}

/// The text column that ends the line holding byte `i`.
fn text_column(chars: &Vec<char>, i: usize) -> (s: String)
    requires
        15 <= i < chars@.len(),
    ensures
        s@ == seq![' ', '|'] + shown_text(chars@).subrange(i + 1 - 16, i + 1) + seq!['|', '\n'],
{
    let ghost text = shown_text(chars@);
    let mut s = String::new();
    push_char(&mut s, ' ');
    push_char(&mut s, '|');
    let ghost mid = s@;
    let len = chars.len();
    let mut o: usize = i - 15;
    while o < i + 1
        invariant
            i + 1 - 16 <= o <= i + 1,
            15 <= i < chars@.len(),
            len == chars@.len(),
            text == shown_text(chars@),
            mid == seq![' ', '|'],
            s@ == mid + text.subrange(i + 1 - 16, o as int),
        decreases i + 1 - o,
    {
        let c = chars[o];
        let shown = if c == '\n' {
            '.'
        } else {
            c
        };
        push_char(&mut s, shown);
        assert(text.subrange(i + 1 - 16, o + 1) =~= text.subrange(i + 1 - 16, o as int).push(
            shown,
        ));
        o = o + 1;
    }
    push_char(&mut s, '|');
    push_char(&mut s, '\n');
    assert(s@ =~= seq![' ', '|'] + text.subrange(i + 1 - 16, i + 1) + seq!['|', '\n']);
    s
}

/// What the dump prints for byte `i`.
fn piece(bytes: &[u8], chars: &Vec<char>, i: usize) -> (s: String)
    requires
        i < bytes@.len(),
        bytes@.len() == chars@.len(),
        16 <= bytes@.len() <= 0x1_0000_0000,
    ensures
        s@ == dump_piece(bytes@, shown_text(chars@), i as int),
{
    let n = bytes.len();
    let mut s = String::new();
    if i % 16 == 0 {
        let c = offset_column(i);
        s = s.concat(c.as_str());
    }
    let bh = byte_hex_string(bytes[i]);
    s = s.concat(bh.as_str());
    if (i % 16 + 1) % 2 == 0 {
        push_char(&mut s, ' ');
    }
    if i % 16 == 15 || i == n - 1 {
        let t = text_column(chars, i);
        s = s.concat(t.as_str());
    }
    assert(s@ =~= dump_piece(bytes@, shown_text(chars@), i as int));
    s
}

/// Produces the hex dump of a file whose contents are `data`.
pub fn hex_dump(data: &str) -> (out: String)
    requires
        dumpable(data@),
    ensures
        out@ == dump_of(data@),
{
    let bytes = data.as_bytes();
    let n = bytes.len();
    let chars = chars_of(data);
    proof {
        if data@.len() > 0 {
            is_ascii_chars_encode_utf8(data@);
        }
    }
    let mut out = String::new();
    let mut i: usize = 0;
    while i < n
        invariant
            0 <= i <= n,
            n == bytes@.len(),
            bytes@ == encode_utf8(data@),
            chars@ == data@,
            n > 0 ==> n == data@.len() && 16 <= n <= 0x1_0000_0000,
            out@ == dump_prefix(bytes@, shown_text(data@), i as int),
        decreases n - i,
    {
        let p = piece(bytes, &chars, i);
        out = out.concat(p.as_str());
        i = i + 1;
    }
    out
}

/// The offset column reads back: for an offset below 2^32, the padded
/// hexadecimal text is eight lower-case hexadecimal digits whose value in
/// base 16 is the offset.
pub proof fn lemma_offset_reads_back(n: nat)
    requires
        n < 0x1_0000_0000,
    ensures
        zero_pad(hex(n)).len() == 8,
        forall|i: int| 0 <= i < 8 ==> is_base_digit(#[trigger] zero_pad(hex(n))[i], 16),
        digits_value(zero_pad(hex(n)), 16) == n,
{
    assert(pow_nat(16, 8) == 0x1_0000_0000) by {
        reveal_with_fuel(pow_nat, 9);
    }
    lemma_digits_len_bound(n, 16, 8);
    lemma_digits_ascii(n, 16);
    is_ascii_chars_encode_utf8(hex(n));
    lemma_digits_value(n, 16);
    let k = (8 - encode_utf8(hex(n)).len()) as nat;
    lemma_leading_zeros_value(k, hex(n), 16);
    let p = zero_pad(hex(n));
    assert forall|i: int| 0 <= i < 8 implies is_base_digit(#[trigger] p[i], 16) by {
        if i >= k {
            assert(p[i] == hex(n)[i - k]);
        } else {
            assert(p[i] == '0');
        }
    }
}

/// Two hexadecimal digits per byte.
proof fn lemma_byte_hex_len(b: u8)
    ensures
        byte_hex(b).len() == 2,
{
    if b < 16 {
        assert(hex(b as nat) == seq![crate::numfmt::digit_char(b as nat)]);
    } else {
        let q = (b as nat) / 16;
        assert(q < 16);
        assert(hex(q) == seq![crate::numfmt::digit_char(q)]);
        assert(hex(b as nat) == hex(q).push(crate::numfmt::digit_char((b as nat) % 16)));
    }
}

/// Characters printed for byte `i` when it is not the file's last byte.
pub open spec fn piece_len(r: int) -> int {
    (if r == 0 {
        10int
    } else {
        0int
    }) + 2 + (if (r + 1) % 2 == 0 {
        1int
    } else {
        0int
    }) + (if r == 15 {
        20int
    } else {
        0int
    })
}

/// Characters printed for the first `r` bytes of a line.
pub open spec fn line_prefix_len(r: int) -> int {
    if r == 0 {
        0
    } else {
        10 + 2 * r + r / 2 + if r == 16 {
            20int
        } else {
            0int
        }
    }
}

proof fn lemma_piece_len(bytes: Seq<u8>, text: Seq<char>, i: int)
    requires
        0 <= i < bytes.len() - 1,
        bytes.len() == text.len(),
        bytes.len() <= 0x1_0000_0000,
    ensures
        dump_piece(bytes, text, i).len() == piece_len(i % 16),
{
    lemma_byte_hex_len(bytes[i]);
    if i % 16 == 0 {
        lemma_offset_reads_back(i as nat);
    }
}

proof fn lemma_prefix_len(bytes: Seq<u8>, text: Seq<char>, m: int)
    requires
        0 <= m < bytes.len(),
        bytes.len() == text.len(),
        bytes.len() <= 0x1_0000_0000,
    ensures
        dump_prefix(bytes, text, m).len() == 70 * (m / 16) + line_prefix_len(m % 16),
    decreases m,
{
    if m > 0 {
        lemma_prefix_len(bytes, text, m - 1);
        lemma_piece_len(bytes, text, m - 1);
        let r = (m - 1) % 16;
        if r == 15 {
            assert(m / 16 == (m - 1) / 16 + 1);
            assert(m % 16 == 0);
        } else {
            assert(m / 16 == (m - 1) / 16);
            assert(m % 16 == r + 1);
        }
    }
}

proof fn lemma_prefix_grows(bytes: Seq<u8>, text: Seq<char>, m: int, m2: int)
    requires
        0 <= m <= m2,
    ensures
        dump_prefix(bytes, text, m).len() <= dump_prefix(bytes, text, m2).len(),
        dump_prefix(bytes, text, m2).subrange(0, dump_prefix(bytes, text, m).len() as int)
            == dump_prefix(bytes, text, m),
    decreases m2 - m,
{
    if m < m2 {
        lemma_prefix_grows(bytes, text, m, m2 - 1);
        let p = dump_prefix(bytes, text, m2 - 1);
        let q = dump_prefix(bytes, text, m2);
        assert(q == p + dump_piece(bytes, text, m2 - 1));
        assert(q.subrange(0, dump_prefix(bytes, text, m).len() as int) =~= p.subrange(
            0,
            dump_prefix(bytes, text, m).len() as int,
        ));
    } else {
        let p = dump_prefix(bytes, text, m);
        assert(p.subrange(0, p.len() as int) =~= p);
    }
}

/// Every line of the dump is labelled with its own offset: the line that
/// starts at byte `16 * k` starts at character `70 * k` of the dump (a full
/// line is 70 characters) with eight hexadecimal digits whose value is
/// exactly `16 * k`, followed by two spaces.
pub proof fn lemma_dump_line_offsets(data: Seq<char>, k: int)
    requires
        0 <= k,
        dumpable(data),
        16 * k < data.len(),
    ensures
        dump_of(data).len() >= 70 * k + 10,
        forall|j: int|
            70 * k <= j < 70 * k + 8 ==> is_base_digit(#[trigger] dump_of(data)[j], 16),
        digits_value(dump_of(data).subrange(70 * k, 70 * k + 8), 16) == 16 * k,
        dump_of(data).subrange(70 * k + 8, 70 * k + 10) == seq![' ', ' '],
{
    is_ascii_chars_encode_utf8(data);
    let bytes = encode_utf8(data);
    let text = shown_text(data);
    let n = bytes.len() as int;
    let i = 16 * k;
    assert(i % 16 == 0 && i / 16 == k);
    lemma_prefix_len(bytes, text, i);
    lemma_offset_reads_back(i as nat);
    let before = dump_prefix(bytes, text, i);
    let head = dump_prefix(bytes, text, i + 1);
    let piece = dump_piece(bytes, text, i);
    assert(head == before + piece);
    assert(before.len() == 70 * k);
    let off = zero_pad(hex(i as nat));
    assert(piece.subrange(0, 10) =~= off + seq![' ', ' ']);
    lemma_prefix_grows(bytes, text, i + 1, n);
    let d = dump_of(data);
    assert(d == dump_prefix(bytes, text, n));
    assert(off.len() == 8);
    assert(piece.len() >= 10);
    assert(head.len() == before.len() + piece.len());
    assert(d.subrange(0, head.len() as int) == head);
    assert forall|j: int| 70 * k <= j < 70 * k + 10 implies d[j] == piece[j - 70 * k] by {
        assert(d.subrange(0, head.len() as int)[j] == d[j]);
        assert(head[j] == piece[j - 70 * k]);
    }
    assert forall|j: int| 0 <= j < 10 implies piece[j] == (off + seq![' ', ' '])[j] by {
        assert(piece.subrange(0, 10)[j] == piece[j]);
    }
    assert(d.subrange(70 * k, 70 * k + 8) =~= off);
    assert(d.subrange(70 * k + 8, 70 * k + 10) =~= seq![' ', ' ']);
    assert forall|j: int| 70 * k <= j < 70 * k + 8 implies is_base_digit(#[trigger] d[j], 16) by {
        assert(d[j] == off[j - 70 * k]);
    }
}

} // verus!
