//! Characters and text: the ASCII sidebar and fixed-width hexadecimal numbers.

use vstd::prelude::*;

verus! {

/// `String::push` of the standard library appends one character to the end of
/// the string and leaves what was there untouched.
pub assume_specification[ String::push ](s: &mut String, c: char)
    ensures
        final(s)@ == old(s)@.push(c),
;

/// The character shown for a byte in the sidebar: the byte's own character
/// when it is printable ASCII, a dot otherwise.
pub open spec fn ascii_char(b: u8) -> char {
    if 0x20 <= b <= 0x7e {
        b as char
    } else {
        '.'
    }
}

/// The sidebar text of a run of bytes: one character for each byte, in order.
/// Bytes are taken one by one; no multi-byte decoding takes place.
pub open spec fn ascii_text(bytes: Seq<u8>) -> Seq<char> {
    Seq::new(bytes.len(), |i: int| ascii_char(bytes[i]))
}

/// The lowercase hexadecimal digits, in order of their value.
pub open spec fn hex_alphabet() -> Seq<char> {
    seq!['0', '1', '2', '3', '4', '5', '6', '7', '8', '9', 'a', 'b', 'c', 'd', 'e', 'f']
}

/// The digit that stands for `d`, for `d` below 16.
pub open spec fn hex_char(d: nat) -> char
    recommends
        d < 16,
{
    hex_alphabet()[d as int]
}

/// `value` written in base 16 with exactly `digits` digits, the most
/// significant first: padded with zeros on the left, and cut down to its low
/// `digits` digits where it would need more.
pub open spec fn hex_digits(value: nat, digits: nat) -> Seq<char>
    decreases digits,
{
    if digits == 0 {
        Seq::empty()
    } else {
        hex_digits(value / 16, (digits - 1) as nat).push(hex_char(value % 16))
    }
}

/// Each byte of `bytes` as two hexadecimal digits, in the order of the bytes.
pub open spec fn hex_bytes(bytes: Seq<u8>) -> Seq<char>
    decreases bytes.len(),
{
    if bytes.len() == 0 {
        Seq::empty()
    } else {
        hex_bytes(bytes.drop_last()) + hex_digits(bytes.last() as nat, 2)
    }
}

/// `count` spaces.
pub open spec fn blanks(count: nat) -> Seq<char> {
    Seq::new(count, |i: int| ' ')
}

/// A fixed-width hexadecimal number is as long as its digit count.
pub proof fn lemma_hex_digits_len(value: nat, digits: nat)
    ensures
        hex_digits(value, digits).len() == digits,
    decreases digits,
{
    if digits > 0 {
        lemma_hex_digits_len(value / 16, (digits - 1) as nat);
    }
}

/// A number with one more byte at its low end is written as the number
/// before, followed by the two digits of that byte.
pub proof fn lemma_hex_digits_low_byte(high: nat, low: u8, digits: nat)
    ensures
        hex_digits(high * 256 + low as nat, digits + 2) == hex_digits(high, digits) + hex_digits(
            low as nat,
            2,
        ),
{
    let value = high * 256 + low as nat;
    reveal_with_fuel(hex_digits, 3);
    assert(value / 16 / 16 == high && (value / 16) % 16 == low as nat / 16 && value % 16
        == low as nat % 16);
    assert(low as nat / 16 / 16 == 0 && (low as nat / 16) % 16 == low as nat / 16);
    assert(hex_digits(value, digits + 2) == hex_digits(high, digits).push(
        hex_char(low as nat / 16),
    ).push(hex_char(low as nat % 16)));
    assert(hex_digits(low as nat, 2) == seq![hex_char(low as nat / 16), hex_char(low as nat % 16)]);
}

/// Appends the sidebar text of `buf` to `out`.
pub fn dump_as_ascii(buf: &[u8], out: &mut String)
    ensures
        final(out)@ == old(out)@ + ascii_text(buf@),
{
    let mut i: usize = 0;
    while i < buf.len()
        invariant
            i <= buf.len(),
            out@ == old(out)@ + ascii_text(buf@.take(i as int)),
        decreases buf.len() - i,
    {
        let b: u8 = buf[i];
        let c: char = if 0x20 <= b && b <= 0x7e {
            b as char
        } else {
            '.'
        };
        out.push(c);
        proof {
            assert(buf@.take(i + 1) == buf@.take(i as int).push(b));
            assert(ascii_text(buf@.take(i + 1)) == ascii_text(buf@.take(i as int)).push(c));
        }
        i += 1;
    }
    proof {
        assert(buf@.take(buf.len() as int) == buf@);
    }
}

/// The hexadecimal digit for a value below 16.
pub fn hex_digit(d: u8) -> (c: char)
    requires
        d < 16,
    ensures
        c == hex_char(d as nat),
{
    if d < 10 {
        ('0' as u8 + d) as char
    } else {
        ('a' as u8 + (d - 10)) as char
    }
}

/// Appends `value` to `out` as exactly `digits` lowercase hexadecimal digits.
pub fn push_hex(value: u128, digits: usize, out: &mut String)
    ensures
        final(out)@ == old(out)@ + hex_digits(value as nat, digits as nat),
    decreases digits,
{
    if digits > 0 {
        push_hex(value / 16, digits - 1, out);
        out.push(hex_digit((value % 16) as u8));
    }
}

/// Appends `count` spaces to `out`.
pub fn push_blanks(count: usize, out: &mut String)
    ensures
        final(out)@ == old(out)@ + blanks(count as nat),
{
    let mut i: usize = 0;
    while i < count
        invariant
            i <= count,
            out@ == old(out)@ + blanks(i as nat),
        decreases count - i,
    {
        out.push(' ');
        i += 1;
    }
}

} // verus!
