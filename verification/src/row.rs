//! One display row: address label, word slots, ASCII sidebar.

use crate::text::{ascii_text, dump_as_ascii, hex_digits, lemma_hex_digits_len, push_hex};
use crate::variant::Variant;
use crate::word::{bytes_of, lemma_bytes_of_len, lemma_grouping_round_trip, push_words_bytes, words_of};
use vstd::prelude::*;

verus! {

/// The number of digits in the address column.
pub open spec fn address_digits(wide: bool) -> nat {
    if wide {
        16
    } else {
        8
    }
}

/// The address label that opens a row: the address in hexadecimal and a colon.
pub open spec fn address_label(wide: bool, address: nat) -> Seq<char> {
    hex_digits(address, address_digits(wide)).push(':')
}

/// The text of word slot `slot` of a row that holds `words`: a space, then
/// the word that stands there, or blanks of the same length where the row
/// has run out of words.
pub open spec fn slot_text(variant: Variant, words: Seq<u128>, slot: int) -> Seq<char> {
    seq![' '] + if slot < words.len() {
        variant.number_text(words[slot])
    } else {
        variant.empty_text()
    }
}

/// The text of the first `slots` word slots of a row that holds `words`.
pub open spec fn slots_text(variant: Variant, words: Seq<u128>, slots: nat) -> Seq<char>
    decreases slots,
{
    if slots == 0 {
        Seq::empty()
    } else {
        slots_text(variant, words, (slots - 1) as nat) + slot_text(variant, words, slots - 1)
    }
}

/// The hex section of a row: every word slot of the row, filled or blank.
pub open spec fn hex_section(variant: Variant, words: Seq<u128>) -> Seq<char> {
    slots_text(variant, words, variant.words_per_row() as nat)
}

/// The sidebar of a row: the ASCII text of the bytes behind the words that
/// are present, and of no others.
pub open spec fn sidebar(variant: Variant, words: Seq<u128>) -> Seq<char> {
    ascii_text(bytes_of(variant.byte_order(), variant.width() as nat, words))
}

/// One row of a dump: label, hex section, a space, sidebar, line end.
pub open spec fn row_text(variant: Variant, wide: bool, address: nat, words: Seq<u128>) -> Seq<
    char,
> {
    address_label(wide, address) + hex_section(variant, words) + seq![' '] + sidebar(
        variant,
        words,
    ) + seq!['\n']
}

/// The width of the hex section in characters: for each word slot a space
/// and two digits for each byte of a word.
pub open spec fn hex_section_width(variant: Variant) -> nat {
    (variant.words_per_row() * (1 + 2 * variant.width())) as nat
}

/// The first `slots` slots of a row take up the same room whether words
/// stand in them or blanks.
proof fn lemma_slots_text_len(variant: Variant, words: Seq<u128>, slots: nat)
    ensures
        slots_text(variant, words, slots).len() == slots * (1 + 2 * variant.width()),
    decreases slots,
{
    let unit = 1 + 2 * variant.width();
    if slots > 0 {
        lemma_slots_text_len(variant, words, (slots - 1) as nat);
        lemma_hex_digits_len(words[slots - 1] as nat, 2 * variant.width() as nat);
        assert(slot_text(variant, words, slots - 1).len() == unit);
        assert((slots - 1) * unit + unit == slots * unit) by (nonlinear_arith);
    } else {
        assert(slots * unit == 0) by (nonlinear_arith)
            requires
                slots == 0,
        ;
    }
}

/// The hex section is equally wide in every row of a layout, in a full row
/// and in a short one alike: absent words are made up for by blanks.
pub proof fn lemma_hex_section_width(variant: Variant, words: Seq<u128>)
    ensures
        hex_section(variant, words).len() == hex_section_width(variant),
{
    lemma_slots_text_len(variant, words, variant.words_per_row() as nat);
}

/// The sidebar has one character for each byte of the words that are present
/// in the row, and none for the slots left blank.
pub proof fn lemma_sidebar_len(variant: Variant, words: Seq<u128>)
    ensures
        sidebar(variant, words).len() == words.len() * variant.width(),
{
    lemma_bytes_of_len(variant.byte_order(), variant.width() as nat, words);
}

/// The sidebar of words that were read from memory shows the bytes as they
/// lie in memory, in address order, in either byte order.
pub proof fn lemma_sidebar_shows_memory(variant: Variant, raw: Seq<u8>)
    requires
        raw.len() % (variant.width() as nat) == 0,
    ensures
        sidebar(variant, words_of(variant.byte_order(), variant.width() as nat, raw))
            == ascii_text(raw),
{
    lemma_grouping_round_trip(variant.byte_order(), variant.width() as nat, raw);
}

/// The address label has the digits of its column and a colon.
pub proof fn lemma_address_label_len(wide: bool, address: nat)
    ensures
        address_label(wide, address).len() == address_digits(wide) + 1,
{
    lemma_hex_digits_len(address, address_digits(wide));
}

/// Appends to `out` the row that shows `buf` at `addr`. The row has all its
/// word slots whatever the length of `buf`; the sidebar covers only the words
/// that are there.
pub fn dump_data_line(variant: Variant, is64: bool, addr: u64, buf: &[u128], out: &mut String)
    requires
        0 < buf.len() <= variant.words_per_row(),
        is64 || addr <= u32::MAX,
    ensures
        final(out)@ == old(out)@ + row_text(variant, is64, addr as nat, buf@),
{
    let digits: usize = if is64 {
        16
    } else {
        8
    };
    push_hex(addr as u128, digits, out);
    out.push(':');
    let slots: usize = variant.words_per_row();
    let mut slot: usize = 0;
    while slot < slots
        invariant
            slot <= slots,
            out@ == old(out)@ + address_label(is64, addr as nat) + slots_text(
                variant,
                buf@,
                slot as nat,
            ),
        decreases slots - slot,
    {
        out.push(' ');
        if slot < buf.len() {
            variant.dump_number(buf[slot], out);
        } else {
            variant.dump_empty(out);
        }
        slot += 1;
    }
    let mut bytes: Vec<u8> = Vec::new();
    push_words_bytes(variant.byte_order(), variant.width(), buf, &mut bytes);
    out.push(' ');
    dump_as_ascii(bytes.as_slice(), out);
    out.push('\n');
}

} // verus!
