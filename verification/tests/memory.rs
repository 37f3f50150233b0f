use mips_emu::memory::{get_ids, Block, Memory};

#[test]
fn unwritten_memory_reads_zero() {
    let memory = Memory::new();
    assert_eq!(memory.get_byte(0), 0);
    assert_eq!(memory.get_byte(0xFFFF_FFFF), 0);
    assert_eq!(memory.get_half_word(0x20), 0);
    assert_eq!(memory.get_word(0x1000), 0);
    assert!(memory.blocks.is_empty());
}

#[test]
fn new_block_is_zero() {
    let block = Block::new();
    assert_eq!(block.data.len(), 256);
    assert!(block.data.iter().all(|b| *b == 0));
}

#[test]
fn ids_split_an_address() {
    assert_eq!(get_ids(0), (0, 0));
    assert_eq!(get_ids(0xFF), (0, 0xFF));
    assert_eq!(get_ids(0x100), (1, 0));
    assert_eq!(get_ids(0x1234_5678), (0x12_3456, 0x78));
    assert_eq!(get_ids(0xFFFF_FFFF), (0xFF_FFFF, 0xFF));
}

#[test]
fn byte_round_trip() {
    let mut memory = Memory::new();
    memory.set_byte(0x1234, 0xAB);
    assert_eq!(memory.get_byte(0x1234), 0xAB);
    assert_eq!(memory.get_byte(0x1233), 0);
    assert_eq!(memory.get_byte(0x1235), 0);
    memory.set_byte(0x1234, 0xCD);
    assert_eq!(memory.get_byte(0x1234), 0xCD);
    memory.set_byte(0xFFFF_FFFF, 7);
    assert_eq!(memory.get_byte(0xFFFF_FFFF), 7);
}

#[test]
fn write_allocates_one_block() {
    let mut memory = Memory::new();
    memory.set_byte(0x300, 1);
    memory.set_byte(0x3FF, 2);
    assert_eq!(memory.blocks.len(), 1);
    memory.set_byte(0x400, 3);
    assert_eq!(memory.blocks.len(), 2);
    assert_eq!(memory.get_byte(0x300), 1);
    assert_eq!(memory.get_byte(0x3FF), 2);
    assert_eq!(memory.get_byte(0x400), 3);
}

#[test]
fn word_is_little_endian() {
    let mut memory = Memory::new();
    memory.set_word(0x100, 0x1122_3344);
    assert_eq!(memory.get_byte(0x100), 0x44);
    assert_eq!(memory.get_byte(0x101), 0x33);
    assert_eq!(memory.get_byte(0x102), 0x22);
    assert_eq!(memory.get_byte(0x103), 0x11);
    assert_eq!(memory.get_half_word(0x100), 0x3344);
    assert_eq!(memory.get_half_word(0x102), 0x1122);
    assert_eq!(memory.get_word(0x100), 0x1122_3344);
}

#[test]
fn half_word_is_little_endian() {
    let mut memory = Memory::new();
    memory.set_half_word(0x10, 0xBEEF);
    assert_eq!(memory.get_byte(0x10), 0xEF);
    assert_eq!(memory.get_byte(0x11), 0xBE);
    assert_eq!(memory.get_half_word(0x10), 0xBEEF);
    assert_eq!(memory.get_word(0x10), 0x0000_BEEF);
}

#[test]
fn word_may_cross_blocks() {
    let mut memory = Memory::new();
    memory.set_word(0xFE, 0xA1B2_C3D4);
    assert_eq!(memory.get_byte(0xFE), 0xD4);
    assert_eq!(memory.get_byte(0xFF), 0xC3);
    assert_eq!(memory.get_byte(0x100), 0xB2);
    assert_eq!(memory.get_byte(0x101), 0xA1);
    assert_eq!(memory.get_word(0xFE), 0xA1B2_C3D4);
    assert_eq!(memory.blocks.len(), 2);
}

#[test]
fn word_at_the_top_of_the_address_space() {
    let mut memory = Memory::new();
    memory.set_word(0xFFFF_FFFC, 0xDEAD_BEEF);
    assert_eq!(memory.get_word(0xFFFF_FFFC), 0xDEAD_BEEF);
    assert_eq!(memory.get_byte(0xFFFF_FFFF), 0xDE);
    memory.set_half_word(0xFFFF_FFFE, 0x1234);
    assert_eq!(memory.get_half_word(0xFFFF_FFFE), 0x1234);
}

#[test]
fn clone_shares_nothing() {
    let mut memory = Memory::new();
    memory.set_word(0x40, 0x0102_0304);
    let copy = memory.clone();
    memory.set_word(0x40, 0xFFFF_FFFF);
    assert_eq!(copy.get_word(0x40), 0x0102_0304);
    assert_eq!(memory.get_word(0x40), 0xFFFF_FFFF);
}
