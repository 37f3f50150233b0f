//! A sparse, byte-addressable, little-endian 32-bit address space.
//!
//! Storage is allocated in blocks of 256 bytes when a block is first written.
//! A byte that was never written reads as zero.

use std::collections::HashMap;
use vstd::prelude::*;

verus! {

broadcast use vstd::std_specs::hash::group_hash_axioms;

/// Number of addresses in the address space.
pub open spec fn address_space() -> int {
    0x1_0000_0000
}

/// The contents of a memory that was never written: zero at every address.
pub open spec fn zero_memory() -> Map<int, u8> {
    Map::new(|addr: int| 0 <= addr < address_space(), |addr: int| 0u8)
}

/// A fixed-size run of bytes, the unit of allocation.
#[derive(Debug)]
pub struct Block {
    pub data: [u8; 256],
}

impl Clone for Block {
    fn clone(&self) -> (block: Block)
        ensures
            block == *self,
    {
        Block { data: self.data }
    }
}

impl Block {
    /// A block whose bytes are all zero.
    pub fn new() -> (block: Block)
        ensures
            forall|i: int| 0 <= i < 256 ==> block.data@[i] == 0u8,
    {
        Block { data: [0u8; 256] }
    }
}

/// Splits an address into the index of its block and the position in the block.
pub fn get_ids(index: u32) -> (ids: (usize, usize))
    ensures
        ids.0 == index / 256,
        ids.1 == index % 256,
{
    let block_id = index >> 8;
    let data_id = index & 0xFF;
    assert((index >> 8) == index / 256 && (index & 0xFF) == index % 256) by (bit_vector);
    (block_id as usize, data_id as usize)
}

/// Byte `i` of a word, byte 0 being the least significant.
pub open spec fn word_byte(word: u32, i: int) -> u8 {
    if i == 0 {
        (word % 256) as u8
    } else if i == 1 {
        (word / 0x100 % 256) as u8
    } else if i == 2 {
        (word / 0x1_0000 % 256) as u8
    } else {
        (word / 0x100_0000 % 256) as u8
    }
}

/// The half-word whose little-endian bytes are stored from `addr` on.
pub open spec fn half_word_at(mem: Map<int, u8>, addr: int) -> u16 {
    (mem[addr] + 0x100 * mem[addr + 1]) as u16
}

/// The word whose little-endian bytes are stored from `addr` on.
pub open spec fn word_at(mem: Map<int, u8>, addr: int) -> u32 {
    (mem[addr] + 0x100 * mem[addr + 1] + 0x1_0000 * mem[addr + 2] + 0x100_0000 * mem[addr + 3]) as u32
}

/// The memory after the two little-endian bytes of `half` are stored from `addr` on.
pub open spec fn store_half_word(mem: Map<int, u8>, addr: int, half: u16) -> Map<int, u8> {
    mem.insert(addr, (half % 256) as u8).insert(addr + 1, (half / 256) as u8)
}

/// The memory after the four little-endian bytes of `word` are stored from `addr` on.
pub open spec fn store_word(mem: Map<int, u8>, addr: int, word: u32) -> Map<int, u8> {
    mem.insert(addr, word_byte(word, 0)).insert(addr + 1, word_byte(word, 1)).insert(
        addr + 2,
        word_byte(word, 2),
    ).insert(addr + 3, word_byte(word, 3))
}

/// The bytes of a little-endian sum of four bytes are those bytes.
proof fn lemma_bytes_of_sum(b0: u8, b1: u8, b2: u8, b3: u8, word: u32)
    by (bit_vector)
    requires
        word == (b0 as u32) + 0x100 * (b1 as u32) + 0x1_0000 * (b2 as u32) + 0x100_0000 * (
        b3 as u32),
    ensures
        word % 256 == b0 as u32,
        word / 0x100 % 256 == b1 as u32,
        word / 0x1_0000 % 256 == b2 as u32,
        word / 0x100_0000 % 256 == b3 as u32,
{
}

/// The bytes of the word read at `addr` are the four bytes stored from `addr` on.
pub proof fn lemma_word_at_bytes(mem: Map<int, u8>, addr: int)
    ensures
        word_byte(word_at(mem, addr), 0) == mem[addr],
        word_byte(word_at(mem, addr), 1) == mem[addr + 1],
        word_byte(word_at(mem, addr), 2) == mem[addr + 2],
        word_byte(word_at(mem, addr), 3) == mem[addr + 3],
{
    lemma_bytes_of_sum(mem[addr], mem[addr + 1], mem[addr + 2], mem[addr + 3], word_at(mem, addr));
}

/// A word is the little-endian sum of its bytes.
proof fn lemma_sum_of_bytes(word: u32)
    by (bit_vector)
    ensures
        word == word % 256 + 0x100 * (word / 0x100 % 256) + 0x1_0000 * (word / 0x1_0000 % 256)
            + 0x100_0000 * (word / 0x100_0000 % 256),
{
}

/// A word that was stored is the word that is read at the same address.
pub proof fn lemma_word_round_trip(mem: Map<int, u8>, addr: int, word: u32)
    ensures
        word_at(store_word(mem, addr, word), addr) == word,
{
    lemma_sum_of_bytes(word);
}

/// A half-word that was stored is the half-word that is read at the same
/// address.
pub proof fn lemma_half_word_round_trip(mem: Map<int, u8>, addr: int, half: u16)
    ensures
        half_word_at(store_half_word(mem, addr, half), addr) == half,
{
}

/// A store of a word changes the four bytes from its address on and no
/// others.
pub proof fn lemma_store_word_elsewhere(mem: Map<int, u8>, addr: int, word: u32, other: int)
    requires
        other < addr || other > addr + 3,
    ensures
        store_word(mem, addr, word)[other] == mem[other],
        store_word(mem, addr, word).dom().contains(other) == mem.dom().contains(other),
{
}

/// Composing a half-word or a word from its bytes with shifts gives the
/// little-endian sum of the bytes.
proof fn lemma_compose_bytes(b0: u8, b1: u8, b2: u8, b3: u8)
    by (bit_vector)
    ensures
        (b0 as u16) | ((b1 as u16) << 8) == (b0 as u16) + 0x100 * (b1 as u16),
        (b0 as u32) | ((b1 as u32) << 8) | ((b2 as u32) << 16) | ((b3 as u32) << 24) == (b0 as u32)
            + 0x100 * (b1 as u32) + 0x1_0000 * (b2 as u32) + 0x100_0000 * (b3 as u32),
{
}

/// Truncating a half-word to a byte, before or after a shift, selects one of
/// its bytes.
proof fn lemma_split_half_word(half: u16)
    by (bit_vector)
    ensures
        (half as u8) as u16 == half % 256,
        ((half >> 8) as u8) as u16 == half / 256,
{
}

/// Truncating a word to a byte, before or after a shift, selects one of its
/// bytes.
proof fn lemma_split_word(word: u32)
    by (bit_vector)
    ensures
        (word as u8) as u32 == word % 256,
        ((word >> 8) as u8) as u32 == word / 0x100 % 256,
        ((word >> 16) as u8) as u32 == word / 0x1_0000 % 256,
        ((word >> 24) as u8) as u32 == word / 0x100_0000 % 256,
{
}

/// The memory: the blocks that were written, by their index.
#[derive(Debug)]
pub struct Memory {
    pub blocks: HashMap<usize, Block>,
}

impl Clone for Memory {
    /// A copy that holds the same byte at every address.
    fn clone(&self) -> (memory: Memory)
        ensures
            memory@ == self@,
    {
        let memory = Memory { blocks: self.blocks.clone() };
        assert(memory@ =~= self@);
        memory
    }
}

impl View for Memory {
    type V = Map<int, u8>;

    /// The contents of the whole address space: every address holds a byte.
    open spec fn view(&self) -> Map<int, u8> {
        Map::new(|addr: int| 0 <= addr < address_space(), |addr: int| self.byte_at(addr))
    }
}

impl Memory {
    /// The byte stored at `addr`: zero where no block was allocated.
    pub open spec fn byte_at(&self, addr: int) -> u8 {
        let block_id = (addr / 256) as usize;
        if self.blocks@.contains_key(block_id) {
            self.blocks@[block_id].data@[addr % 256]
        } else {
            0u8
        }
    }

    /// The indices of the blocks that hold storage.
    pub open spec fn allocated(&self) -> Set<int> {
        Set::new(|block: int| 0 <= block <= usize::MAX && self.blocks@.contains_key(block as usize))
    }

    /// An address space that reads as zero everywhere and holds no storage.
    pub fn new() -> (memory: Memory)
        ensures
            memory@ == zero_memory(),
            memory.allocated() == Set::<int>::empty(),
    {
        let memory = Memory { blocks: HashMap::new() };
        assert(memory@ =~= zero_memory());
        assert(memory.allocated() =~= Set::<int>::empty());
        memory
    }

    /// Reads one byte.
    pub fn get_byte(&self, index: u32) -> (byte: u8)
        ensures
            byte == self@[index as int],
    {
        let (block_id, data_id) = get_ids(index);
        match self.blocks.get(&block_id) {
            Some(block) => block.data[data_id],
            None => 0,
        }
    }

    /// Writes one byte.  The block that holds the address gets storage if
    /// it had none; no other block does.
    pub fn set_byte(&mut self, index: u32, byte: u8)
        ensures
            final(self)@ == old(self)@.insert(index as int, byte),
            final(self).allocated() == old(self).allocated().insert(index as int / 256),
    {
        let (block_id, data_id) = get_ids(index);
        let mut block = match self.blocks.remove(&block_id) {
            Some(block) => block,
            None => Block::new(),
        };
        block.data[data_id] = byte;
        self.blocks.insert(block_id, block);
        assert(self@ =~= old(self)@.insert(index as int, byte));
        assert(self.allocated() =~= old(self).allocated().insert(index as int / 256));
    }

    /// Reads two bytes as a little-endian half-word.  Both have to lie in the
    /// address space.
    pub fn get_half_word(&self, index: u32) -> (half: u16)
        requires
            index + 1 < address_space(),
        ensures
            half == half_word_at(self@, index as int),
    {
        let b0 = self.get_byte(index);
        let b1 = self.get_byte(index + 1);
        proof {
            lemma_compose_bytes(b0, b1, 0, 0);
        }
        (b0 as u16) | ((b1 as u16) << 8)
    }

    /// Writes a half-word as two little-endian bytes.  Both have to lie in the
    /// address space.
    pub fn set_half_word(&mut self, index: u32, half_word: u16)
        requires
            index + 1 < address_space(),
        ensures
            final(self)@ == store_half_word(old(self)@, index as int, half_word),
            final(self).allocated() == old(self).allocated().insert(index as int / 256).insert(
                (index + 1) / 256,
            ),
    {
        proof {
            lemma_split_half_word(half_word);
        }
        self.set_byte(index, half_word as u8);
        self.set_byte(index + 1, (half_word >> 8) as u8);
        assert(self.allocated() =~= old(self).allocated().insert(index as int / 256).insert(
            (index + 1) / 256,
        ));
    }

    /// Reads four bytes as a little-endian word.  All have to lie in the
    /// address space.
    pub fn get_word(&self, index: u32) -> (word: u32)
        requires
            index + 3 < address_space(),
        ensures
            word == word_at(self@, index as int),
    {
        let b0 = self.get_byte(index);
        let b1 = self.get_byte(index + 1);
        let b2 = self.get_byte(index + 2);
        let b3 = self.get_byte(index + 3);
        proof {
            lemma_compose_bytes(b0, b1, b2, b3);
        }
        (b0 as u32) | ((b1 as u32) << 8) | ((b2 as u32) << 16) | ((b3 as u32) << 24)
    }

    /// Writes a word as four little-endian bytes.  All have to lie in the
    /// address space.
    pub fn set_word(&mut self, index: u32, word: u32)
        requires
            index + 3 < address_space(),
        ensures
            final(self)@ == store_word(old(self)@, index as int, word),
            final(self).allocated() == old(self).allocated().insert(index as int / 256).insert(
                (index + 3) / 256,
            ),
    {
        proof {
            lemma_split_word(word);
        }
        self.set_byte(index, word as u8);
        self.set_byte(index + 1, (word >> 8) as u8);
        self.set_byte(index + 2, (word >> 16) as u8);
        self.set_byte(index + 3, (word >> 24) as u8);
        assert(self.allocated() =~= old(self).allocated().insert(index as int / 256).insert(
            (index + 3) / 256,
        ));
    }
}

} // verus!
