//! Words: the fixed-width numbers that a dump shows, and the bytes behind them.

use crate::text::{hex_bytes, hex_digits, lemma_hex_digits_low_byte};
use crate::variant::ByteOrder;
use vstd::prelude::*;
use vstd::slice::slice_subrange;

verus! {

/// The widest word, in bytes: what a `u128` holds.
pub const MAX_WORD_BYTES: usize = 16;

/// The number that `bytes` spell when the first byte is the most significant.
pub open spec fn be_value(bytes: Seq<u8>) -> nat
    decreases bytes.len(),
{
    if bytes.len() == 0 {
        0
    } else {
        be_value(bytes.drop_last()) * 256 + bytes.last() as nat
    }
}

/// The low `width` bytes of `value`, the most significant first.
pub open spec fn be_bytes(value: nat, width: nat) -> Seq<u8>
    decreases width,
{
    if width == 0 {
        Seq::empty()
    } else {
        be_bytes(value / 256, (width - 1) as nat).push((value % 256) as u8)
    }
}

/// The value of the word that occupies `bytes` in memory, read in `order`:
/// in memory order the first byte is the most significant, in reversed order
/// the last one is.
pub open spec fn word_value(order: ByteOrder, bytes: Seq<u8>) -> nat {
    match order {
        ByteOrder::Big => be_value(bytes),
        ByteOrder::Little => be_value(bytes.reverse()),
    }
}

/// The `width` bytes that a word of value `value` occupies in memory, in
/// address order, when it is stored in `order`.
pub open spec fn word_bytes(order: ByteOrder, value: nat, width: nat) -> Seq<u8> {
    match order {
        ByteOrder::Big => be_bytes(value, width),
        ByteOrder::Little => be_bytes(value, width).reverse(),
    }
}

/// The number of values that `width` bytes can spell: 256 to the power `width`.
pub open spec fn word_limit(width: nat) -> nat
    decreases width,
{
    if width == 0 {
        1
    } else {
        256 * word_limit((width - 1) as nat)
    }
}

/// A word of `bytes.len()` bytes is below the limit of that width.
pub proof fn lemma_be_value_bound(bytes: Seq<u8>)
    ensures
        be_value(bytes) < word_limit(bytes.len()),
    decreases bytes.len(),
{
    if bytes.len() > 0 {
        lemma_be_value_bound(bytes.drop_last());
    }
}

/// The limit grows with the width.
pub proof fn lemma_word_limit_monotonic(narrow: nat, wide: nat)
    requires
        narrow <= wide,
    ensures
        word_limit(narrow) <= word_limit(wide),
    decreases wide,
{
    if narrow < wide {
        lemma_word_limit_monotonic(narrow, (wide - 1) as nat);
    }
}

/// Sixteen bytes spell exactly the values of a `u128`.
pub proof fn lemma_word_limit_max()
    ensures
        word_limit(MAX_WORD_BYTES as nat) == u128::MAX + 1,
{
    reveal_with_fuel(word_limit, 17);
}

/// A word read in either order fits a `u128` when it has at most 16 bytes.
pub proof fn lemma_word_value_fits(order: ByteOrder, bytes: Seq<u8>)
    requires
        bytes.len() <= MAX_WORD_BYTES,
    ensures
        word_value(order, bytes) <= u128::MAX,
{
    lemma_be_value_bound(bytes);
    lemma_be_value_bound(bytes.reverse());
    lemma_word_limit_monotonic(bytes.len(), MAX_WORD_BYTES as nat);
    lemma_word_limit_max();
}

/// Writing out the number that bytes spell gives the bytes back.
pub proof fn lemma_be_round_trip(bytes: Seq<u8>)
    ensures
        be_bytes(be_value(bytes), bytes.len()) == bytes,
    decreases bytes.len(),
{
    if bytes.len() > 0 {
        lemma_be_round_trip(bytes.drop_last());
        assert(bytes.drop_last().push(bytes.last()) == bytes);
    }
}

/// A word's bytes, read in some order and stored again in the same order,
/// are the bytes that were read.
pub proof fn lemma_word_round_trip(order: ByteOrder, bytes: Seq<u8>)
    ensures
        word_bytes(order, word_value(order, bytes), bytes.len()) == bytes,
{
    match order {
        ByteOrder::Big => {
            lemma_be_round_trip(bytes);
        },
        ByteOrder::Little => {
            lemma_be_round_trip(bytes.reverse());
            assert(bytes.reverse().reverse() == bytes);
        },
    }
}

/// The bytes of a word in the order in which its digits show them: as they
/// lie in memory, or reversed.
pub open spec fn shown_bytes(order: ByteOrder, bytes: Seq<u8>) -> Seq<u8> {
    match order {
        ByteOrder::Big => bytes,
        ByteOrder::Little => bytes.reverse(),
    }
}

proof fn lemma_hex_of_be_value(bytes: Seq<u8>)
    ensures
        hex_digits(be_value(bytes), 2 * bytes.len()) == hex_bytes(bytes),
    decreases bytes.len(),
{
    if bytes.len() > 0 {
        lemma_hex_of_be_value(bytes.drop_last());
        lemma_hex_digits_low_byte(
            be_value(bytes.drop_last()),
            bytes.last(),
            2 * bytes.drop_last().len(),
        );
    }
}

/// The digits of a word are the digits of its bytes, two for each: in memory
/// order where the word is read in memory order, and with the byte at the
/// highest address first where it is read reversed.
pub proof fn lemma_word_digits_follow_bytes(order: ByteOrder, bytes: Seq<u8>)
    ensures
        hex_digits(word_value(order, bytes), 2 * bytes.len()) == hex_bytes(
            shown_bytes(order, bytes),
        ),
{
    lemma_hex_of_be_value(shown_bytes(order, bytes));
}

/// Reads the word that occupies `bytes`, in `order`.
pub fn word_from_bytes(order: ByteOrder, bytes: &[u8]) -> (word: u128)
    requires
        bytes.len() <= MAX_WORD_BYTES,
    ensures
        word == word_value(order, bytes@),
{
    let n: usize = bytes.len();
    let ghost shown: Seq<u8> = match order {
        ByteOrder::Big => bytes@,
        ByteOrder::Little => bytes@.reverse(),
    };
    let mut word: u128 = 0;
    let mut i: usize = 0;
    while i < n
        invariant
            n == bytes.len(),
            n <= MAX_WORD_BYTES,
            shown.len() == n,
            forall|k: int| 0 <= k < n ==> shown[k] == match order {
                ByteOrder::Big => bytes@[k],
                ByteOrder::Little => bytes@[n - 1 - k],
            },
            i <= n,
            word == be_value(shown.take(i as int)),
        decreases n - i,
    {
        let b: u8 = match order {
            ByteOrder::Big => bytes[i],
            ByteOrder::Little => bytes[n - 1 - i],
        };
        proof {
            let next = shown.take(i + 1);
            assert(next.drop_last() == shown.take(i as int));
            assert(next.last() == b);
            lemma_be_value_bound(next);
            lemma_word_limit_monotonic(next.len(), MAX_WORD_BYTES as nat);
            lemma_word_limit_max();
        }
        word = word * 256 + b as u128;
        i += 1;
    }
    proof {
        assert(shown.take(n as int) == shown);
    }
    word
}

/// Appends to `out` the low `width` bytes of `word`, the most significant first.
fn push_be_bytes(word: u128, width: usize, out: &mut Vec<u8>)
    ensures
        final(out)@ == old(out)@ + be_bytes(word as nat, width as nat),
    decreases width,
{
    if width > 0 {
        push_be_bytes(word / 256, width - 1, out);
        out.push((word % 256) as u8);
    }
}

/// Appends to `out` the low `width` bytes of `word`, the least significant first.
fn push_le_bytes(word: u128, width: usize, out: &mut Vec<u8>)
    ensures
        final(out)@ == old(out)@ + be_bytes(word as nat, width as nat).reverse(),
    decreases width,
{
    if width > 0 {
        out.push((word % 256) as u8);
        push_le_bytes(word / 256, width - 1, out);
        proof {
            let rest = be_bytes((word / 256) as nat, (width - 1) as nat);
            let low = (word % 256) as u8;
            assert(rest.push(low).reverse() == seq![low] + rest.reverse());
        }
    }
}

/// Appends to `out` the `width` bytes that `word` occupies in memory when it
/// is stored in `order`.
pub fn push_word_bytes(order: ByteOrder, word: u128, width: usize, out: &mut Vec<u8>)
    ensures
        final(out)@ == old(out)@ + word_bytes(order, word as nat, width as nat),
{
    match order {
        ByteOrder::Big => push_be_bytes(word, width, out),
        ByteOrder::Little => push_le_bytes(word, width, out),
    }
}

/// The words that `raw` holds, one for each full run of `width` bytes, each
/// read in `order`.
pub open spec fn words_of(order: ByteOrder, width: nat, raw: Seq<u8>) -> Seq<u128> {
    Seq::new(
        raw.len() / width,
        |k: int| word_value(order, raw.subrange(k * width, k * width + width)) as u128,
    )
}

/// The bytes that `words` occupy in memory, in address order, when each is
/// stored in `width` bytes in `order`.
pub open spec fn bytes_of(order: ByteOrder, width: nat, words: Seq<u128>) -> Seq<u8>
    decreases words.len(),
{
    if words.len() == 0 {
        Seq::empty()
    } else {
        bytes_of(order, width, words.drop_last()) + word_bytes(order, words.last() as nat, width)
    }
}

/// Writing a word out takes exactly its width in bytes.
pub proof fn lemma_word_bytes_len(order: ByteOrder, value: nat, width: nat)
    ensures
        word_bytes(order, value, width).len() == width,
{
    lemma_be_bytes_len(value, width);
}

proof fn lemma_be_bytes_len(value: nat, width: nat)
    ensures
        be_bytes(value, width).len() == width,
    decreases width,
{
    if width > 0 {
        lemma_be_bytes_len(value / 256, (width - 1) as nat);
    }
}

/// The bytes behind a run of words number the words times the width.
pub proof fn lemma_bytes_of_len(order: ByteOrder, width: nat, words: Seq<u128>)
    ensures
        bytes_of(order, width, words).len() == words.len() * width,
    decreases words.len(),
{
    if words.len() > 0 {
        lemma_bytes_of_len(order, width, words.drop_last());
        lemma_word_bytes_len(order, words.last() as nat, width);
        assert((words.len() - 1) * width + width == words.len() * width) by (nonlinear_arith);
    }
}

/// Grouping bytes into words and writing the words out again, in the same
/// width and order, gives back the bytes that were grouped.
pub proof fn lemma_grouping_round_trip(order: ByteOrder, width: nat, raw: Seq<u8>)
    requires
        0 < width <= MAX_WORD_BYTES,
        raw.len() % width == 0,
    ensures
        bytes_of(order, width, words_of(order, width, raw)) == raw,
    decreases raw.len(),
{
    let words = words_of(order, width, raw);
    let n = words.len() as int;
    assert(n * width == raw.len()) by (nonlinear_arith)
        requires
            n == raw.len() / width,
            raw.len() % width == 0,
            0 < width,
    ;
    if n > 0 {
        let cut = (n - 1) * width;
        assert(cut + width == raw.len()) by (nonlinear_arith)
            requires
                cut == (n - 1) * width,
                n * width == raw.len(),
        ;
        assert(0 <= cut) by (nonlinear_arith)
            requires
                cut == (n - 1) * width,
                n > 0,
                width > 0,
        ;
        let front = raw.take(cut);
        let back = raw.subrange(cut, cut + width);
        assert(front.len() / width == n - 1 && front.len() % width == 0) by (nonlinear_arith)
            requires
                front.len() == (n - 1) * width,
                0 < width,
        ;
        assert forall|k: int| 0 <= k < n - 1 implies #[trigger] words_of(order, width, front)[k]
            == words[k] by {
            assert(k * width + width <= cut) by (nonlinear_arith)
                requires
                    0 <= k < n - 1,
                    cut == (n - 1) * width,
                    width > 0,
            ;
            assert(0 <= k * width) by (nonlinear_arith)
                requires
                    0 <= k,
                    width > 0,
            ;
            assert(front.subrange(k * width, k * width + width) == raw.subrange(
                k * width,
                k * width + width,
            ));
        }
        assert(words.drop_last() == words_of(order, width, front));
        lemma_grouping_round_trip(order, width, front);
        lemma_word_value_fits(order, back);
        lemma_word_round_trip(order, back);
        assert(words.last() == word_value(order, back));
        assert(front + back == raw);
    } else {
        assert(raw.len() == 0) by (nonlinear_arith)
            requires
                n == 0,
                n * width == raw.len(),
        ;
        assert(raw == Seq::<u8>::empty());
    }
}

/// Groups `raw` into words of `width` bytes, each read in `order`. Bytes
/// behind the last full word are left out.
pub fn decode_words(order: ByteOrder, width: usize, raw: &[u8]) -> (words: Vec<u128>)
    requires
        0 < width <= MAX_WORD_BYTES,
    ensures
        words@ == words_of(order, width as nat, raw@),
{
    let count: usize = raw.len() / width;
    let mut words: Vec<u128> = Vec::with_capacity(count);
    let mut k: usize = 0;
    while k < count
        invariant
            0 < width <= MAX_WORD_BYTES,
            count == raw.len() / width,
            k <= count,
            words@ == words_of(order, width as nat, raw@).take(k as int),
        decreases count - k,
    {
        assert(k * width + width <= raw.len()) by (nonlinear_arith)
            requires
                k < count,
                count == raw.len() / width,
                0 < width,
        ;
        let chunk = slice_subrange(raw, k * width, k * width + width);
        let word = word_from_bytes(order, chunk);
        words.push(word);
        proof {
            lemma_word_value_fits(order, chunk@);
            assert(words_of(order, width as nat, raw@).take(k + 1) == words_of(
                order,
                width as nat,
                raw@,
            ).take(k as int).push(word));
        }
        k += 1;
    }
    words
}

/// Appends to `out` the bytes that `words` occupy in memory when each is
/// stored in `width` bytes in `order`.
pub fn push_words_bytes(order: ByteOrder, width: usize, words: &[u128], out: &mut Vec<u8>)
    ensures
        final(out)@ == old(out)@ + bytes_of(order, width as nat, words@),
{
    let mut k: usize = 0;
    while k < words.len()
        invariant
            k <= words.len(),
            out@ == old(out)@ + bytes_of(order, width as nat, words@.take(k as int)),
        decreases words.len() - k,
    {
        push_word_bytes(order, words[k], width, out);
        proof {
            assert(words@.take(k + 1).drop_last() == words@.take(k as int));
        }
        k += 1;
    }
    proof {
        assert(words@.take(words.len() as int) == words@);
    }
}

} // verus!
