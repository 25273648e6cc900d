//! The seven display layouts: a word width paired with a byte order.

use crate::row::{address_digits, hex_section_width};
use crate::text::{blanks, hex_digits, push_blanks, push_hex};
use vstd::prelude::*;
use vstd::string::StringExecFns;

verus! {

/// The number of bytes that one display row covers, whatever the word width.
pub const ROW_BYTES: usize = 16;

/// The header lines, one for each layout and address column. They are part
/// of the output format and stand here letter for letter.
pub const BE2_HEADER_32: &'static str =
    "Adress  : +0+1 +2+3 +4+5 +6+7 +8+9 +A+B +C+D +E+F 0123456789ABCDEF\n";

pub const BE2_HEADER_64: &'static str =
    "Adress          : +0+1 +2+3 +4+5 +6+7 +8+9 +A+B +C+D +E+F 0123456789ABCDEF\n";

pub const LE2_HEADER_32: &'static str =
    "Adress  : +1+0 +3+2 +5+4 +7+6 +9+8 +B+A +D+C +F+E 0123456789ABCDEF\n";

pub const LE2_HEADER_64: &'static str =
    "Adress          : +1+0 +3+2 +5+4 +7+6 +9+8 +B+A +D+C +F+E 0123456789ABCDEF\n";

pub const BE4_HEADER_32: &'static str =
    "Adress  : +0+1+2+3 +4+5+6+7 +8+9+A+B +C+D+E+F 0123456789ABCDEF\n";

pub const BE4_HEADER_64: &'static str =
    "Adress          : +0+1+2+3 +4+5+6+7 +8+9+A+B +C+D+E+F 0123456789ABCDEF\n";

pub const LE4_HEADER_32: &'static str =
    "Adress  : +3+2+1+0 +7+6+5+4 +B+A+9+8 +F+E+D+C 0123456789ABCDEF\n";

pub const LE4_HEADER_64: &'static str =
    "Adress          : +3+2+1+0 +7+6+5+4 +B+A+9+8 +F+E+D+C 0123456789ABCDEF\n";

pub const BE8_HEADER_32: &'static str =
    "Adress  : +0+1+2+3+4+5+6+7 +8+9+A+B+C+D+E+F 0123456789ABCDEF\n";

pub const BE8_HEADER_64: &'static str =
    "Adress          : +0+1+2+3+4+5+6+7 +8+9+A+B+C+D+E+F 0123456789ABCDEF\n";

pub const LE8_HEADER_32: &'static str =
    "Adress  : +7+6+5+4+3+2+1+0 +F+E+D+C+B+A+9+8 0123456789ABCDEF\n";

pub const LE8_HEADER_64: &'static str =
    "Adress          : +7+6+5+4+3+2+1+0 +F+E+D+C+B+A+9+8 0123456789ABCDEF\n";

pub const BE16_HEADER_32: &'static str =
    "Adress  : +0+1+2+3+4+5+6+7+8+9+A+B+C+D+E+F 0123456789ABCDEF\n";

pub const BE16_HEADER_64: &'static str =
    "Adress          : +0+1+2+3+4+5+6+7+8+9+A+B+C+D+E+F 0123456789ABCDEF\n";

/// The order in which the bytes of a word are shown.
#[derive(Clone, Copy, PartialEq, Eq, Structural, Debug)]
pub enum ByteOrder {
    /// Memory order: the byte at the lowest address comes first.
    Big,
    /// Reversed: the byte at the highest address comes first.
    Little,
}

/// A display layout. The set is closed: word widths of 2, 4 and 8 bytes in
/// either byte order, and 16 bytes in memory order only.
#[derive(Clone, Copy, PartialEq, Eq, Structural, Debug)]
pub enum Variant {
    Be2,
    Le2,
    Be4,
    Le4,
    Be8,
    Le8,
    Be16,
}

impl Variant {
    /// The width of one word in bytes.
    pub open spec fn spec_width(self) -> usize {
        match self {
            Variant::Be2 | Variant::Le2 => 2,
            Variant::Be4 | Variant::Le4 => 4,
            Variant::Be8 | Variant::Le8 => 8,
            Variant::Be16 => 16,
        }
    }

    /// The byte order in which a word is shown.
    pub open spec fn spec_byte_order(self) -> ByteOrder {
        match self {
            Variant::Be2 | Variant::Be4 | Variant::Be8 | Variant::Be16 => ByteOrder::Big,
            Variant::Le2 | Variant::Le4 | Variant::Le8 => ByteOrder::Little,
        }
    }

    /// The number of word slots in one display row.
    pub open spec fn spec_words_per_row(self) -> usize {
        match self {
            Variant::Be2 | Variant::Le2 => 8,
            Variant::Be4 | Variant::Le4 => 4,
            Variant::Be8 | Variant::Le8 => 2,
            Variant::Be16 => 1,
        }
    }

    /// The header line above the rows, for an address column of 8 digits
    /// (`wide` false) or of 16 (`wide` true).
    pub open spec fn header(self, wide: bool) -> Seq<char> {
        match (self, wide) {
            (Variant::Be2, false) => BE2_HEADER_32@,
            (Variant::Be2, true) => BE2_HEADER_64@,
            (Variant::Le2, false) => LE2_HEADER_32@,
            (Variant::Le2, true) => LE2_HEADER_64@,
            (Variant::Be4, false) => BE4_HEADER_32@,
            (Variant::Be4, true) => BE4_HEADER_64@,
            (Variant::Le4, false) => LE4_HEADER_32@,
            (Variant::Le4, true) => LE4_HEADER_64@,
            (Variant::Be8, false) => BE8_HEADER_32@,
            (Variant::Be8, true) => BE8_HEADER_64@,
            (Variant::Le8, false) => LE8_HEADER_32@,
            (Variant::Le8, true) => LE8_HEADER_64@,
            (Variant::Be16, false) => BE16_HEADER_32@,
            (Variant::Be16, true) => BE16_HEADER_64@,
        }
    }

    /// The number of bytes that `count` words take up.
    pub open spec fn span(self, count: nat) -> nat {
        count * self.spec_width() as nat
    }

    /// One word as text: its value in lowercase hexadecimal, two digits for
    /// each byte of the width.
    pub open spec fn number_text(self, word: u128) -> Seq<char> {
        hex_digits(word as nat, 2 * self.spec_width() as nat)
    }

    /// What stands in a slot that holds no word: as many spaces as a word has
    /// digits.
    pub open spec fn empty_text(self) -> Seq<char> {
        blanks(2 * self.spec_width() as nat)
    }

    /// The width of one word in bytes: 2, 4, 8 or 16.
    #[verifier::when_used_as_spec(spec_width)]
    pub fn width(self) -> (w: usize)
        ensures
            w == self.spec_width(),
    {
        match self {
            Variant::Be2 | Variant::Le2 => 2,
            Variant::Be4 | Variant::Le4 => 4,
            Variant::Be8 | Variant::Le8 => 8,
            Variant::Be16 => 16,
        }
    }

    /// The byte order in which a word is shown.
    #[verifier::when_used_as_spec(spec_byte_order)]
    pub fn byte_order(self) -> (order: ByteOrder)
        ensures
            order == self.spec_byte_order(),
    {
        match self {
            Variant::Be2 | Variant::Be4 | Variant::Be8 | Variant::Be16 => ByteOrder::Big,
            Variant::Le2 | Variant::Le4 | Variant::Le8 => ByteOrder::Little,
        }
    }

    /// The number of word slots in one display row: 16 bytes' worth.
    #[verifier::when_used_as_spec(spec_words_per_row)]
    pub fn words_per_row(self) -> (n: usize)
        ensures
            n == self.spec_words_per_row(),
            n * self.spec_width() == ROW_BYTES,
    {
        ROW_BYTES / self.width()
    }

    /// The header line for an address column of 8 digits.
    pub fn header_32(self) -> (text: &'static str)
        ensures
            text@ == self.header(false),
    {
        match self {
            Variant::Be2 => BE2_HEADER_32,
            Variant::Le2 => LE2_HEADER_32,
            Variant::Be4 => BE4_HEADER_32,
            Variant::Le4 => LE4_HEADER_32,
            Variant::Be8 => BE8_HEADER_32,
            Variant::Le8 => LE8_HEADER_32,
            Variant::Be16 => BE16_HEADER_32,
        }
    }

    /// The header line for an address column of 16 digits.
    pub fn header_64(self) -> (text: &'static str)
        ensures
            text@ == self.header(true),
    {
        match self {
            Variant::Be2 => BE2_HEADER_64,
            Variant::Le2 => LE2_HEADER_64,
            Variant::Be4 => BE4_HEADER_64,
            Variant::Le4 => LE4_HEADER_64,
            Variant::Be8 => BE8_HEADER_64,
            Variant::Le8 => LE8_HEADER_64,
            Variant::Be16 => BE16_HEADER_64,
        }
    }

    /// Appends the header line for the chosen address column to `out`.
    pub fn dump_header(self, wide: bool, out: &mut String)
        ensures
            final(out)@ == old(out)@ + self.header(wide),
    {
        if wide {
            out.append(self.header_64());
        } else {
            out.append(self.header_32());
        }
    }

    /// Appends one word to `out` as hexadecimal digits.
    pub fn dump_number(self, word: u128, out: &mut String)
        ensures
            final(out)@ == old(out)@ + self.number_text(word),
    {
        push_hex(word, 2 * self.width(), out);
    }

    /// Appends the placeholder for an absent word to `out`.
    pub fn dump_empty(self, out: &mut String)
        ensures
            final(out)@ == old(out)@ + self.empty_text(),
    {
        push_blanks(2 * self.width(), out);
    }
}

/// The header is as long as a full row under it: its address column, its
/// byte markers and its sidebar ruler stand above the row's label, hex
/// section and sidebar.
pub proof fn lemma_header_spans_full_row(variant: Variant, wide: bool)
    ensures
        variant.header(wide).len() == address_digits(wide) + 1 + hex_section_width(variant) + 1
            + ROW_BYTES + 1,
{
    reveal_strlit("Adress  : +0+1 +2+3 +4+5 +6+7 +8+9 +A+B +C+D +E+F 0123456789ABCDEF\n");
    reveal_strlit("Adress          : +0+1 +2+3 +4+5 +6+7 +8+9 +A+B +C+D +E+F 0123456789ABCDEF\n");
    reveal_strlit("Adress  : +1+0 +3+2 +5+4 +7+6 +9+8 +B+A +D+C +F+E 0123456789ABCDEF\n");
    reveal_strlit("Adress          : +1+0 +3+2 +5+4 +7+6 +9+8 +B+A +D+C +F+E 0123456789ABCDEF\n");
    reveal_strlit("Adress  : +0+1+2+3 +4+5+6+7 +8+9+A+B +C+D+E+F 0123456789ABCDEF\n");
    reveal_strlit("Adress          : +0+1+2+3 +4+5+6+7 +8+9+A+B +C+D+E+F 0123456789ABCDEF\n");
    reveal_strlit("Adress  : +3+2+1+0 +7+6+5+4 +B+A+9+8 +F+E+D+C 0123456789ABCDEF\n");
    reveal_strlit("Adress          : +3+2+1+0 +7+6+5+4 +B+A+9+8 +F+E+D+C 0123456789ABCDEF\n");
    reveal_strlit("Adress  : +0+1+2+3+4+5+6+7 +8+9+A+B+C+D+E+F 0123456789ABCDEF\n");
    reveal_strlit("Adress          : +0+1+2+3+4+5+6+7 +8+9+A+B+C+D+E+F 0123456789ABCDEF\n");
    reveal_strlit("Adress  : +7+6+5+4+3+2+1+0 +F+E+D+C+B+A+9+8 0123456789ABCDEF\n");
    reveal_strlit("Adress          : +7+6+5+4+3+2+1+0 +F+E+D+C+B+A+9+8 0123456789ABCDEF\n");
    reveal_strlit("Adress  : +0+1+2+3+4+5+6+7+8+9+A+B+C+D+E+F 0123456789ABCDEF\n");
    reveal_strlit("Adress          : +0+1+2+3+4+5+6+7+8+9+A+B+C+D+E+F 0123456789ABCDEF\n");
    assert(hex_section_width(variant) == 2 * ROW_BYTES + variant.words_per_row());
}

} // verus!
