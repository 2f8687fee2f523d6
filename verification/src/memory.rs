//! The word-addressable store the interpreter runs against: the interface it
//! consumes, a hash-map store that meets it, and byte-range reads.

use crate::bits::{to_be_bytes, word_bytes};
use std::collections::HashMap;
use vstd::prelude::*;
use vstd::std_specs::hash::*;

verus! {

/// Bytes in an inclusion proof: 28 levels of 32-byte siblings.
pub const MEM_PROOF_SIZE: usize = 896;

/// Aligned word storage with inclusion proofs.
pub trait Memory {
    /// The word stored at each address.
    spec fn words(&self) -> Map<u32, u32>;

    /// The inclusion proof this store gives for an address in its present state.
    spec fn proof_of(&self, addr: u32) -> Seq<u8>;

    /// Reads the word at an aligned address.
    fn get_memory(&self, addr: u32) -> (value: u32)
        requires
            addr % 4 == 0,
        ensures
            value == self.words()[addr],
    ;

    /// Replaces the word at an aligned address and leaves every other word alone.
    fn set_memory(&mut self, addr: u32, value: u32)
        requires
            addr % 4 == 0,
        ensures
            final(self).words() == old(self).words().insert(addr, value),
    ;

    /// Produces the inclusion proof for an address.
    fn merkle_proof(&self, addr: u32) -> (proof: [u8; 896])
        ensures
            proof@ == self.proof_of(addr),
    ;
}

/// The address of the word that holds the byte at `addr`.
pub open spec fn word_addr(addr: u32) -> u32 {
    (addr - addr % 4) as u32
}

/// The byte at a byte address; bytes lie most significant first within a word.
pub open spec fn byte_at(words: Map<u32, u32>, addr: u32) -> u8 {
    word_bytes(words[word_addr(addr)])[(addr % 4) as int]
}

/// The `count` bytes that start at `addr`; addresses wrap at 2^32.
pub open spec fn range_bytes(words: Map<u32, u32>, addr: u32, count: nat) -> Seq<u8> {
    Seq::new(count, |i: int| byte_at(words, ((addr + i) % 0x1_0000_0000) as u32))
}

/// Reads `count` bytes starting at byte address `addr`.
pub fn read_memory_range<M: Memory>(memory: &M, addr: u32, count: u32) -> (bytes: Vec<u8>)
    ensures
        bytes@ == range_bytes(memory.words(), addr, count as nat),
{
    let mut bytes: Vec<u8> = Vec::new();
    let mut i: u32 = 0;
    while i < count
        invariant
            i <= count,
            bytes@ == range_bytes(memory.words(), addr, i as nat),
        decreases count - i,
    {
        let at: u32 = addr.wrapping_add(i);
        let lane: u32 = at % 4;
        let word: u32 = memory.get_memory(at - lane);
        let lanes: [u8; 4] = to_be_bytes(word);
        bytes.push(lanes[lane as usize]);
        i = i + 1;
        assert(bytes@ =~= range_bytes(memory.words(), addr, i as nat));
    }
    bytes
}

/// A store that keeps only the words written to it; every other word reads
/// as zero. It maintains no hash tree, so its inclusion proofs are all zero
/// bytes: it serves runs in which proofs are switched off.
pub struct SparseMemory {
    cells: HashMap<u32, u32>,
}

impl SparseMemory {
    /// A store in which every word is zero.
    pub fn new() -> (memory: Self)
        ensures
            forall|addr: u32| #[trigger] memory.words()[addr] == 0,
    {
        SparseMemory { cells: HashMap::new() }
    }
}

impl Memory for SparseMemory {
    closed spec fn words(&self) -> Map<u32, u32> {
        Map::new(
            |addr: u32| true,
            |addr: u32|
                if self.cells@.contains_key(addr) {
                    self.cells@[addr]
                } else {
                    0u32
                },
        )
    }

    open spec fn proof_of(&self, addr: u32) -> Seq<u8> {
        Seq::new(896, |i: int| 0u8)
    }

    fn get_memory(&self, addr: u32) -> (value: u32) {
        broadcast use group_hash_axioms;

        match self.cells.get(&addr) {
            Some(value) => *value,
            None => 0,
        }
    }

    fn set_memory(&mut self, addr: u32, value: u32) {
        broadcast use group_hash_axioms;

        self.cells.insert(addr, value);
        assert(self.words() =~= old(self).words().insert(addr, value));
    }

    fn merkle_proof(&self, addr: u32) -> (proof: [u8; 896]) {
        let proof: [u8; 896] = [0u8; 896];
        assert(proof@ =~= self.proof_of(addr));
        proof
    }
}

} // verus!
