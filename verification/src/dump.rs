//! The dump driver: normalize the range, fetch the words, pick the address
//! column, emit header and rows. One entry point for each layout.

use crate::memory::{Memory, ReadFailure};
use crate::range::{normalize, normalized};
use crate::row::{address_digits, dump_data_line, lemma_address_label_len, row_text};
use crate::text::hex_digits;
use crate::variant::{Variant, ROW_BYTES};
use vstd::prelude::*;
use vstd::slice::slice_subrange;

verus! {

/// Whether a dump of `count` words from `address` on needs the 16-digit
/// address column: it does when the first address behind the dump is above
/// what 32 bits hold. The choice is made once for the whole dump.
pub open spec fn is_wide(variant: Variant, address: nat, count: nat) -> bool {
    address + variant.span(count) > u32::MAX
}

/// The number of rows that `count` words fill, the last one maybe in part.
pub open spec fn row_count(variant: Variant, count: nat) -> nat {
    ((count + variant.words_per_row() - 1) / (variant.words_per_row() as int)) as nat
}

/// The words of row `row` of a dump of `words`: a full row's worth, or what
/// is left of `words` in the last row.
pub open spec fn row_words(variant: Variant, words: Seq<u128>, row: nat) -> Seq<u128> {
    let first = row * variant.words_per_row();
    let behind = first + variant.words_per_row();
    words.subrange(
        first,
        if behind <= words.len() {
            behind
        } else {
            words.len() as int
        },
    )
}

/// The address of row `row` of a dump that starts at `address`.
pub open spec fn row_address(address: nat, row: nat) -> nat {
    address + row * ROW_BYTES as nat
}

/// Row `row` of the dump of `words` from `address` on.
pub open spec fn dump_row(variant: Variant, address: nat, words: Seq<u128>, row: nat) -> Seq<
    char,
> {
    row_text(
        variant,
        is_wide(variant, address, words.len()),
        row_address(address, row),
        row_words(variant, words, row),
    )
}

/// The first `rows` rows of the dump of `words` from `address` on.
pub open spec fn dump_rows(variant: Variant, address: nat, words: Seq<u128>, rows: nat) -> Seq<
    char,
>
    decreases rows,
{
    if rows == 0 {
        Seq::empty()
    } else {
        dump_rows(variant, address, words, (rows - 1) as nat) + dump_row(
            variant,
            address,
            words,
            (rows - 1) as nat,
        )
    }
}

/// The whole dump of `words` from `address` on: the header for the chosen
/// address column, then every row.
pub open spec fn dump_text(variant: Variant, address: nat, words: Seq<u128>) -> Seq<char> {
    variant.header(is_wide(variant, address, words.len())) + dump_rows(
        variant,
        address,
        words,
        row_count(variant, words.len()),
    )
}

/// Where the rows of a dump lie: every row below the row count starts
/// inside the words, 16 bytes behind the row before it.
proof fn lemma_row_start(variant: Variant, count: nat, row: nat)
    requires
        row < row_count(variant, count),
    ensures
        row * variant.words_per_row() < count,
        row * ROW_BYTES + variant.width() <= variant.span(count),
{
    let p = variant.words_per_row() as int;
    if p == 1 {
        assert(row * 1 < count && row * 16 + 16 <= count * 16);
    } else if p == 2 {
        assert(row * 2 < count && row * 16 + 8 <= count * 8);
    } else if p == 4 {
        assert(row * 4 < count && row * 16 + 4 <= count * 4);
    } else {
        assert(row * 8 < count && row * 16 + 2 <= count * 2);
    }
}

/// The row count, computed by division with remainder.
proof fn lemma_row_count(variant: Variant, count: nat)
    ensures
        row_count(variant, count) == count / (variant.words_per_row() as nat) + if count % (
        variant.words_per_row() as nat) == 0 {
            0nat
        } else {
            1nat
        },
        variant.words_per_row() == 1 ==> count % (variant.words_per_row() as nat) == 0,
        count / (variant.words_per_row() as nat) <= count,
        variant.words_per_row() > 1 ==> count / (variant.words_per_row() as nat) <= count / 2,
{
    let p = variant.words_per_row() as int;
    if p == 1 {
        assert(row_count(variant, count) == count / 1);
    } else if p == 2 {
        assert(row_count(variant, count) == count / 2 + if count % 2 == 0 { 0int } else { 1int });
    } else if p == 4 {
        assert(row_count(variant, count) == count / 4 + if count % 4 == 0 { 0int } else { 1int });
    } else {
        assert(row_count(variant, count) == count / 8 + if count % 8 == 0 { 0int } else { 1int });
    }
}

/// Every row of a dump holds at least one word and at most a full row's
/// worth, and only the last row can be short.
pub proof fn lemma_row_words_len(variant: Variant, words: Seq<u128>, row: nat)
    requires
        row < row_count(variant, words.len()),
    ensures
        0 < row_words(variant, words, row).len() <= variant.words_per_row(),
        row + 1 < row_count(variant, words.len()) ==> row_words(variant, words, row).len()
            == variant.words_per_row(),
{
    lemma_row_start(variant, words.len(), row);
    if row + 1 < row_count(variant, words.len()) {
        lemma_row_start(variant, words.len(), row + 1);
        assert((row + 1) * variant.words_per_row() == row * variant.words_per_row()
            + variant.words_per_row()) by (nonlinear_arith);
    }
}

/// Every row of one dump carries its address in the same number of digits,
/// 8 or 16. Which of the two is settled once, by where the dump ends: 16
/// where the first address behind the last word is above what 32 bits hold.
/// With 8 digits every row's address fits them.
pub proof fn lemma_address_width_consistent(
    variant: Variant,
    address: nat,
    words: Seq<u128>,
    row: nat,
)
    requires
        row < row_count(variant, words.len()),
    ensures
        ({
            let wide = address + words.len() * variant.width() > u32::MAX;
            let digits = address_digits(wide);
            let text = dump_row(variant, address, words, row);
            &&& text.len() > digits
            &&& text.take(digits as int) == hex_digits(row_address(address, row), digits)
            &&& text[digits as int] == ':'
            &&& !wide ==> row_address(address, row) <= u32::MAX
        }),
{
    let wide = is_wide(variant, address, words.len());
    lemma_address_label_len(wide, row_address(address, row));
    lemma_row_start(variant, words.len(), row);
    let label = hex_digits(row_address(address, row), address_digits(wide));
    assert(dump_row(variant, address, words, row).take(address_digits(wide) as int) == label);
}

/// Appends to `out` the dump of `words`, which were fetched from `address`
/// on: the header, then the rows. With no words the dump is the header alone.
pub fn dump_words(variant: Variant, address: u64, words: &[u128], out: &mut String)
    requires
        address + variant.span(words@.len()) <= u64::MAX + 1,
    ensures
        final(out)@ == old(out)@ + dump_text(variant, address as nat, words@),
{
    let width: usize = variant.width();
    let per_row: usize = variant.words_per_row();
    let count: usize = words.len();
    let ghost end: nat = address as nat + variant.span(count as nat);
    assert(count * width == variant.span(count as nat) && count * width <= u64::MAX + 1)
        by (nonlinear_arith)
        requires
            variant.span(count as nat) == count as nat * width as nat,
            variant.span(count as nat) <= u64::MAX + 1,
    ;
    let is64: bool = address as u128 + count as u128 * width as u128 > u32::MAX as u128;
    proof {
        lemma_row_count(variant, count as nat);
    }
    let rows: usize = if count % per_row == 0 {
        count / per_row
    } else {
        count / per_row + 1
    };
    variant.dump_header(is64, out);
    let mut row: usize = 0;
    while row < rows
        invariant
            per_row == variant.words_per_row(),
            count == words@.len(),
            end == address + variant.span(count as nat),
            end <= u64::MAX + 1,
            is64 == (end > u32::MAX),
            rows == row_count(variant, count as nat),
            row <= rows,
            out@ == old(out)@ + variant.header(is64) + dump_rows(
                variant,
                address as nat,
                words@,
                row as nat,
            ),
        decreases rows - row,
    {
        proof {
            lemma_row_start(variant, count as nat, row as nat);
        }
        let first: usize = row * per_row;
        let behind: usize = if count - first < per_row {
            count
        } else {
            first + per_row
        };
        let line = slice_subrange(words, first, behind);
        assert(line@ == row_words(variant, words@, row as nat));
        let addr: u64 = address + row as u64 * ROW_BYTES as u64;
        dump_data_line(variant, is64, addr, line, out);
        row = row + 1;
    }
}

/// What a dump of the `size` bytes at `addr` does to its output, from
/// `before` to `after`, and how it ends. It succeeds when `memory` can supply
/// the range widened to whole words, and then appends the dump of the words
/// found there. Otherwise it fails and the output stays as it was.
pub open spec fn dumped(
    variant: Variant,
    memory: &Memory,
    addr: u64,
    size: usize,
    before: Seq<char>,
    after: Seq<char>,
    done: Result<(), ReadFailure>,
) -> bool {
    let range = normalized(variant, addr, size);
    if memory.readable(range.address, variant.span(range.word_count as nat)) {
        &&& done is Ok
        &&& after == before + dump_text(
            variant,
            range.address as nat,
            memory.words_at(variant, range.address, range.word_count as nat),
        )
    } else {
        &&& done is Err
        &&& after == before
    }
}

/// Appends to `out` the dump of the `size` bytes at `addr`, widened to whole
/// words and read from `memory`. Where `memory` cannot supply the widened
/// range the dump fails, and nothing is appended: no header, no row.
pub fn dump_in(variant: Variant, memory: &Memory, addr: u64, size: usize, out: &mut String) -> (done:
    Result<(), ReadFailure>)
    ensures
        dumped(variant, memory, addr, size, old(out)@, final(out)@, done),
{
    let range = normalize(variant, addr, size);
    match memory.read_words(variant, range.address, range.word_count) {
        Ok(words) => {
            dump_words(variant, range.address, words.as_slice(), out);
            Ok(())
        },
        Err(failure) => Err(failure),
    }
}

/// Dumps in words of 16 bytes, shown in memory order.
pub fn dump_be16(memory: &Memory, addr: u64, size: usize, out: &mut String) -> (done: Result<
    (),
    ReadFailure,
>)
    ensures
        dumped(Variant::Be16, memory, addr, size, old(out)@, final(out)@, done),
{
    dump_in(Variant::Be16, memory, addr, size, out)
}

/// Dumps in words of 8 bytes, shown in memory order.
pub fn dump_be8(memory: &Memory, addr: u64, size: usize, out: &mut String) -> (done: Result<
    (),
    ReadFailure,
>)
    ensures
        dumped(Variant::Be8, memory, addr, size, old(out)@, final(out)@, done),
{
    dump_in(Variant::Be8, memory, addr, size, out)
}

/// Dumps in words of 8 bytes, shown with their bytes reversed.
pub fn dump_le8(memory: &Memory, addr: u64, size: usize, out: &mut String) -> (done: Result<
    (),
    ReadFailure,
>)
    ensures
        dumped(Variant::Le8, memory, addr, size, old(out)@, final(out)@, done),
{
    dump_in(Variant::Le8, memory, addr, size, out)
}

/// Dumps in words of 4 bytes, shown in memory order.
pub fn dump_be4(memory: &Memory, addr: u64, size: usize, out: &mut String) -> (done: Result<
    (),
    ReadFailure,
>)
    ensures
        dumped(Variant::Be4, memory, addr, size, old(out)@, final(out)@, done),
{
    dump_in(Variant::Be4, memory, addr, size, out)
}

/// Dumps in words of 4 bytes, shown with their bytes reversed.
pub fn dump_le4(memory: &Memory, addr: u64, size: usize, out: &mut String) -> (done: Result<
    (),
    ReadFailure,
>)
    ensures
        dumped(Variant::Le4, memory, addr, size, old(out)@, final(out)@, done),
{
    dump_in(Variant::Le4, memory, addr, size, out)
}

/// Dumps in words of 2 bytes, shown in memory order.
pub fn dump_be2(memory: &Memory, addr: u64, size: usize, out: &mut String) -> (done: Result<
    (),
    ReadFailure,
>)
    ensures
        dumped(Variant::Be2, memory, addr, size, old(out)@, final(out)@, done),
{
    dump_in(Variant::Be2, memory, addr, size, out)
}

/// Dumps in words of 2 bytes, shown with their bytes reversed.
pub fn dump_le2(memory: &Memory, addr: u64, size: usize, out: &mut String) -> (done: Result<
    (),
    ReadFailure,
>)
    ensures
        dumped(Variant::Le2, memory, addr, size, old(out)@, final(out)@, done),
{
    dump_in(Variant::Le2, memory, addr, size, out)
}

} // verus!
