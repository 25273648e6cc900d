//! The memory source of a dump: a readable region of an address space.

use crate::variant::Variant;
use crate::word::{decode_words, words_of};
use vstd::prelude::*;
use vstd::slice::slice_subrange;

verus! {

/// The one failure of this library: the memory source cannot supply the
/// range that was asked of it.
#[derive(Clone, Copy, PartialEq, Eq, Structural, Debug)]
pub struct ReadFailure {}

/// The bytes that lie at `base` and the addresses after it, as a map from
/// address to byte. Addresses run to the end of the 64-bit address space and
/// no further.
pub open spec fn region(base: u64, bytes: Seq<u8>) -> Map<int, u8> {
    Map::new(
        |a: int| base <= a < base + bytes.len() && a <= u64::MAX,
        |a: int| bytes[a - base],
    )
}

/// A memory source: one region of readable bytes. Every address outside the
/// region is unreadable.
pub struct Memory {
    base: u64,
    bytes: Vec<u8>,
}

impl View for Memory {
    type V = Map<int, u8>;

    closed spec fn view(&self) -> Map<int, u8> {
        region(self.base, self.bytes@)
    }
}

impl Memory {
    /// A source that holds `bytes` from address `base` on.
    pub fn new(base: u64, bytes: Vec<u8>) -> (memory: Memory)
        ensures
            memory@ == region(base, bytes@),
    {
        Memory { base, bytes }
    }

    /// Whether each of the `len` addresses from `address` on can be read.
    /// An empty range can always be read.
    pub open spec fn readable(&self, address: u64, len: nat) -> bool {
        forall|a: int| address <= a < address + len ==> self@.dom().contains(a)
    }

    /// The `len` bytes from `address` on, in address order.
    pub open spec fn bytes_at(&self, address: u64, len: nat) -> Seq<u8> {
        Seq::new(len, |i: int| self@[address + i])
    }

    /// The `count` words from `address` on, in address order, read as the
    /// variant reads them.
    pub open spec fn words_at(&self, variant: Variant, address: u64, count: nat) -> Seq<u128> {
        words_of(
            variant.byte_order(),
            variant.width() as nat,
            self.bytes_at(address, variant.span(count)),
        )
    }

    /// Reads `count` words of the variant's width from `address` on. The read
    /// succeeds when the whole range is readable and fails otherwise: there
    /// are no partial reads.
    pub fn read_words(&self, variant: Variant, address: u64, count: usize) -> (fetched: Result<
        Vec<u128>,
        ReadFailure,
    >)
        ensures
            fetched is Ok <==> self.readable(address, variant.span(count as nat)),
            fetched matches Ok(words) ==> words@ == self.words_at(variant, address, count as nat),
            fetched matches Ok(words) ==> words@.len() == count,
            fetched is Ok ==> address + variant.span(count as nat) <= u64::MAX + 1,
    {
        let width: usize = variant.width();
        let len: u128 = count as u128 * width as u128;
        let ghost span: nat = count as nat * width as nat;
        assert(len == span) by (nonlinear_arith)
            requires
                len == count as u128 * width as u128,
                span == count as nat * width as nat,
                count <= usize::MAX,
                width <= 16,
        ;
        if len == 0 {
            assert(self.bytes_at(address, span) == Seq::<u8>::empty());
            return Ok(Vec::new());
        }
        if address < self.base {
            assert(!self@.dom().contains(address as int));
            return Err(ReadFailure {  });
        }
        let start: u64 = address - self.base;
        if start as u128 + len > self.bytes.len() as u128 || address as u128 + len > u64::MAX as u128
            + 1 {
            assert(!self@.dom().contains(address + span - 1));
            return Err(ReadFailure {  });
        }
        let raw = slice_subrange(self.bytes.as_slice(), start as usize, start as usize + len as usize);
        assert(raw@ == self.bytes_at(address, span));
        let words = decode_words(variant.byte_order(), width, raw);
        assert(words@.len() == count) by (nonlinear_arith)
            requires
                words@.len() == span / width as nat,
                span == count as nat * width as nat,
                width > 0,
        ;
        Ok(words)
    }
}

} // verus!
