//! Range normalisation: widening a requested window to whole words.

use crate::variant::Variant;
use vstd::prelude::*;

verus! {

/// A window of whole words: where it starts and how many words it holds.
#[derive(Clone, Copy, PartialEq, Eq, Structural, Debug)]
pub struct WordRange {
    /// The address of the first word, a multiple of the word width.
    pub address: u64,
    /// The number of words in the window.
    pub word_count: usize,
}

/// `address` rounded down to a multiple of `width`.
pub open spec fn aligned_address(address: int, width: int) -> int {
    address - address % width
}

/// `size` grown by what rounding `address` down has added in front.
pub open spec fn adjusted_size(address: int, size: int, width: int) -> int {
    size + address % width
}

/// `size` rounded up to a multiple of `width`.
pub open spec fn round_up(size: int, width: int) -> int {
    if size % width == 0 {
        size
    } else {
        size - size % width + width
    }
}

/// The number of `width`-byte words that cover `size` bytes from `address`
/// on, counted from the word that holds `address`.
pub open spec fn word_count(address: int, size: int, width: int) -> int {
    round_up(adjusted_size(address, size, width), width) / width
}

/// The window of whole words that covers the `size` bytes at `address`.
pub open spec fn normalized(variant: Variant, address: u64, size: usize) -> WordRange {
    WordRange {
        address: aligned_address(address as int, variant.width() as int) as u64,
        word_count: word_count(address as int, size as int, variant.width() as int) as usize,
    }
}

/// The first address behind the normalized window.
pub open spec fn range_end(variant: Variant, address: u64, size: usize) -> int {
    aligned_address(address as int, variant.width() as int) + word_count(
        address as int,
        size as int,
        variant.width() as int,
    ) * variant.width()
}

/// Rounding up gives a multiple of the width, at or above the size and less
/// than one width above it.
pub proof fn lemma_round_up_bounds(size: int, width: int)
    requires
        0 <= size,
        0 < width,
    ensures
        round_up(size, width) % width == 0,
        size <= round_up(size, width) < size + width,
{
    let r = round_up(size, width);
    assert(r % width == 0 && size <= r < size + width) by (nonlinear_arith)
        requires
            0 <= size,
            0 < width,
            r == if size % width == 0 {
                size
            } else {
                size - size % width + width
            },
    ;
}

/// No multiple of the width lies between the size and the size rounded up.
pub proof fn lemma_round_up_is_least(size: int, width: int, multiple: int)
    requires
        0 <= size,
        0 < width,
        size <= multiple,
        multiple % width == 0,
    ensures
        round_up(size, width) <= multiple,
{
    lemma_round_up_bounds(size, width);
    let r = round_up(size, width);
    if multiple < r {
        assert(false) by (nonlinear_arith)
            requires
                0 < width,
                r % width == 0,
                multiple % width == 0,
                r - width < multiple < r,
        ;
    }
}

/// The normalized window starts on a word boundary at or just before the
/// requested address, and ends on one at or just behind the requested end.
pub proof fn lemma_normalized_covers(variant: Variant, address: u64, size: usize)
    ensures
        normalized(variant, address, size).address % (variant.width() as u64) == 0,
        address - variant.width() < normalized(variant, address, size).address <= address,
        normalized(variant, address, size).word_count == word_count(
            address as int,
            size as int,
            variant.width() as int,
        ),
        address + size <= range_end(variant, address, size) < address + size + variant.width(),
        range_end(variant, address, size) == normalized(variant, address, size).address
            + normalized(variant, address, size).word_count * variant.width(),
{
    let w = variant.width() as int;
    assert(w == 2 || w == 4 || w == 8 || w == 16);
    lemma_round_up_bounds(adjusted_size(address as int, size as int, w), w);
}

/// Normalizing a window that starts on a word boundary leaves its address
/// alone and only rounds its size up to the next multiple of the width.
pub proof fn lemma_aligned_is_kept(variant: Variant, address: u64, size: usize)
    requires
        address % (variant.width() as u64) == 0,
    ensures
        normalized(variant, address, size).address == address,
        normalized(variant, address, size).word_count * variant.width() == round_up(
            size as int,
            variant.width() as int,
        ),
{
    let w = variant.width() as int;
    assert(w == 2 || w == 4 || w == 8 || w == 16);
    lemma_round_up_bounds(size as int, w);
}

/// Normalizing twice changes nothing: a normalized window is its own
/// normalization.
pub proof fn lemma_normalize_idempotent(variant: Variant, address: u64, size: usize)
    requires
        range_end(variant, address, size) - normalized(variant, address, size).address
            <= usize::MAX,
    ensures
        ({
            let once = normalized(variant, address, size);
            normalized(variant, once.address, (once.word_count * variant.width()) as usize) == once
        }),
{
    let w = variant.width() as int;
    assert(w == 2 || w == 4 || w == 8 || w == 16);
    lemma_normalized_covers(variant, address, size);
    let once = normalized(variant, address, size);
    lemma_aligned_is_kept(variant, once.address, (once.word_count * variant.width()) as usize);
}

/// The word count computed piecewise, without forming `size + lead`, is the
/// count of the definition.
proof fn lemma_word_count_split(address: int, size: int, width: int)
    requires
        0 <= address,
        0 <= size,
        width == 2 || width == 4 || width == 8 || width == 16,
    ensures
        0 <= address % width < width,
        address % width <= address,
        aligned_address(address, width) % width == 0,
        word_count(address, size, width) == size / width + (size % width + address % width
            + width - 1) / width,
        word_count(address, size, width) <= size / 2 + 1,
{
    if width == 2 {
        assert(word_count(address, size, 2) == size / 2 + (size % 2 + address % 2 + 1) / 2);
    } else if width == 4 {
        assert(word_count(address, size, 4) == size / 4 + (size % 4 + address % 4 + 3) / 4);
    } else if width == 8 {
        assert(word_count(address, size, 8) == size / 8 + (size % 8 + address % 8 + 7) / 8);
    } else {
        assert(word_count(address, size, 16) == size / 16 + (size % 16 + address % 16 + 15) / 16);
    }
}

/// Widens the `size` bytes at `address` to whole words of the variant's
/// width: the start moves down to a word boundary, the end up to one.
pub fn normalize(variant: Variant, address: u64, size: usize) -> (range: WordRange)
    ensures
        range == normalized(variant, address, size),
        range.address == aligned_address(address as int, variant.width() as int),
        range.word_count == word_count(address as int, size as int, variant.width() as int),
{
    let width: usize = variant.width();
    proof {
        lemma_word_count_split(address as int, size as int, width as int);
    }
    let lead: u64 = address % (width as u64);
    let tail: usize = size % width + lead as usize;
    WordRange { address: address - lead, word_count: size / width + (tail + width - 1) / width }
}

} // verus!
