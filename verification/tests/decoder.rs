use mips_emu::decoder::{
    decode_branch_comp, decode_i_sign_extend, decode_i_zero_extend, decode_instruction,
    decode_jump, decode_r2_inst, decode_r_div_mul, decode_r_inst, decode_r_no_shift,
    decode_r_shift,
};
use mips_emu::instruction::Instruction;

fn encode_r(rs: u32, rt: u32, rd: u32, shift: u32, function: u32) -> u32 {
    (rs << 21) | (rt << 16) | (rd << 11) | (shift << 6) | function
}

fn encode_i(opcode: u32, rs: u32, rt: u32, imm: u32) -> u32 {
    (opcode << 26) | (rs << 21) | (rt << 16) | (imm & 0xFFFF)
}

#[test]
fn zero_word_is_the_no_operation() {
    assert_eq!(decode_instruction(0), Instruction::SLL(0, 0, 0));
    assert_eq!(Instruction::from_word(0), Instruction::SLL(0, 0, 0));
}

#[test]
fn field_extraction() {
    let word = 0b101010_10101_01010_11011_00100_110011u32;
    assert_eq!(decode_r_no_shift(word), (0b10101, 0b01010, 0b11011));
    assert_eq!(decode_r_shift(word), (0b01010, 0b11011, 0b00100));
    assert_eq!(decode_r_div_mul(word), (0b10101, 0b01010));
    assert_eq!(decode_jump(word), 0b10101_01010_11011_00100_110011);
    assert_eq!(decode_i_zero_extend(word), (0b10101, 0b01010, 0b11011_00100_110011));
    assert_eq!(
        decode_i_sign_extend(word),
        (0b10101, 0b01010, 0b11011_00100_110011 - 0x1_0000)
    );
    assert_eq!(decode_i_sign_extend(0x0000_7FFF), (0, 0, 0x7FFF));
    assert_eq!(decode_i_sign_extend(0x0000_8000), (0, 0, -0x8000));
    assert_eq!(decode_i_sign_extend(0x0000_FFFF), (0, 0, -1));
    assert_eq!(decode_i_zero_extend(0x0000_FFFF), (0, 0, 0xFFFF));
    assert_eq!(decode_jump(0xFFFF_FFFF), 0x03FF_FFFF);
}

#[test]
fn shifts_by_a_constant() {
    assert_eq!(decode_instruction(encode_r(0, 2, 3, 4, 0)), Instruction::SLL(2, 3, 4));
    assert_eq!(decode_instruction(encode_r(0, 2, 3, 31, 2)), Instruction::SRL(2, 3, 31));
    assert_eq!(decode_instruction(encode_r(0, 5, 6, 7, 3)), Instruction::SRA(5, 6, 7));
}

#[test]
fn three_register_encodings() {
    let cases: [(u32, fn(u32, u32, u32) -> Instruction); 14] = [
        (0b000100, Instruction::SLLV),
        (0b000110, Instruction::SRLV),
        (0b000111, Instruction::SRAV),
        (0b100000, Instruction::ADD),
        (0b100001, Instruction::ADDU),
        (0b100010, Instruction::SUB),
        (0b100011, Instruction::SUBU),
        (0b100100, Instruction::AND),
        (0b100101, Instruction::OR),
        (0b100110, Instruction::XOR),
        (0b100111, Instruction::NOR),
        (0b101010, Instruction::SLT),
        (0b101011, Instruction::SLTU),
        (0b100000, Instruction::ADD),
    ];
    for (function, make) in cases {
        assert_eq!(decode_instruction(encode_r(1, 2, 3, 0, function)), make(1, 2, 3));
        assert_eq!(decode_r_inst(encode_r(31, 30, 29, 0, function)), make(31, 30, 29));
    }
}

#[test]
fn other_register_encodings() {
    assert_eq!(decode_instruction(encode_r(31, 0, 0, 0, 0b001000)), Instruction::JR(31));
    assert_eq!(decode_instruction(encode_r(4, 0, 31, 0, 0b001001)), Instruction::JALR(4, 31));
    assert_eq!(decode_instruction(encode_r(0, 0, 0, 0, 0b001100)), Instruction::SYSCALL);
    assert_eq!(decode_instruction(encode_r(0, 0, 9, 0, 0b010000)), Instruction::MFHI(9));
    assert_eq!(decode_instruction(encode_r(9, 0, 0, 0, 0b010001)), Instruction::MTHI(9));
    assert_eq!(decode_instruction(encode_r(0, 0, 8, 0, 0b010010)), Instruction::MFLO(8));
    assert_eq!(decode_instruction(encode_r(8, 0, 0, 0, 0b010011)), Instruction::MTLO(8));
    assert_eq!(decode_instruction(encode_r(3, 4, 0, 0, 0b011000)), Instruction::MULT(3, 4));
    assert_eq!(decode_instruction(encode_r(3, 4, 0, 0, 0b011001)), Instruction::MULTU(3, 4));
    assert_eq!(decode_instruction(encode_r(3, 4, 0, 0, 0b011010)), Instruction::DIV(3, 4));
    assert_eq!(decode_instruction(encode_r(3, 4, 0, 0, 0b011011)), Instruction::DIVU(3, 4));
    assert_eq!(decode_instruction(encode_r(3, 4, 0, 0, 0b110100)), Instruction::TEQ(3, 4));
}

#[test]
fn second_register_family() {
    let word = (0b011100 << 26) | encode_r(1, 2, 3, 0, 0b000010);
    assert_eq!(decode_instruction(word), Instruction::MUL(1, 2, 3));
    assert_eq!(decode_r2_inst(word), Instruction::MUL(1, 2, 3));
    let other = (0b011100 << 26) | encode_r(1, 2, 3, 0, 0b000000);
    assert_eq!(decode_instruction(other), Instruction::Unknown(other));
}

#[test]
fn branches_on_a_comparison_with_zero() {
    assert_eq!(decode_instruction(encode_i(1, 7, 0b00000, 0x0010)), Instruction::BLTZ(7, 16));
    assert_eq!(decode_instruction(encode_i(1, 7, 0b00001, 0xFFFF)), Instruction::BGEZ(7, -1));
    assert_eq!(decode_instruction(encode_i(1, 7, 0b10000, 0x8000)), Instruction::BLTZAL(7, -32768));
    assert_eq!(decode_instruction(encode_i(1, 7, 0b10001, 0x7FFF)), Instruction::BGEZAL(7, 32767));
    let word = encode_i(1, 7, 0b00010, 4);
    assert_eq!(decode_instruction(word), Instruction::Unknown(word));
    assert_eq!(decode_branch_comp(word), Instruction::Unknown(word));
}

#[test]
fn jump_encodings() {
    assert_eq!(decode_instruction((0b000010 << 26) | 0x012_3456), Instruction::J(0x012_3456));
    assert_eq!(decode_instruction((0b000011 << 26) | 0x3FF_FFFF), Instruction::JAL(0x3FF_FFFF));
}

#[test]
fn immediate_encodings_with_sign_extension() {
    assert_eq!(decode_instruction(encode_i(0b000100, 1, 2, 0xFFFE)), Instruction::BEQ(1, 2, -2));
    assert_eq!(decode_instruction(encode_i(0b000101, 1, 2, 3)), Instruction::BNE(1, 2, 3));
    assert_eq!(decode_instruction(encode_i(0b000110, 1, 0, 3)), Instruction::BLEZ(1, 3));
    assert_eq!(decode_instruction(encode_i(0b000111, 1, 0, 3)), Instruction::BGTZ(1, 3));
    assert_eq!(decode_instruction(encode_i(0b001000, 1, 2, 0x8000)), Instruction::ADDI(1, 2, -32768));
    assert_eq!(decode_instruction(encode_i(0b001001, 1, 2, 0xFFFF)), Instruction::ADDIU(1, 2, -1));
    assert_eq!(decode_instruction(encode_i(0b001010, 1, 2, 5)), Instruction::SLTI(1, 2, 5));
    assert_eq!(decode_instruction(encode_i(0b001011, 1, 2, 0xFFFF)), Instruction::SLTIU(1, 2, -1));
}

#[test]
fn immediate_encodings_with_zero_extension() {
    assert_eq!(decode_instruction(encode_i(0b001100, 1, 2, 0xFFFF)), Instruction::ANDI(1, 2, 0xFFFF));
    assert_eq!(decode_instruction(encode_i(0b001101, 1, 2, 0x8000)), Instruction::ORI(1, 2, 0x8000));
    assert_eq!(decode_instruction(encode_i(0b001110, 1, 2, 1)), Instruction::XORI(1, 2, 1));
    assert_eq!(decode_instruction(encode_i(0b001111, 0, 2, 0xABCD)), Instruction::LUI(2, 0xABCD));
    assert_eq!(decode_instruction(encode_i(0b001111, 9, 2, 0xABCD)), Instruction::LUI(2, 0xABCD));
}

#[test]
fn loads_and_stores() {
    let cases: [(u32, fn(u32, u32, i32) -> Instruction); 12] = [
        (0b100000, Instruction::LB),
        (0b100001, Instruction::LH),
        (0b100010, Instruction::LWL),
        (0b100011, Instruction::LW),
        (0b100100, Instruction::LBU),
        (0b100101, Instruction::LHU),
        (0b100110, Instruction::LWR),
        (0b101000, Instruction::SB),
        (0b101001, Instruction::SH),
        (0b101010, Instruction::SWL),
        (0b101011, Instruction::SW),
        (0b101110, Instruction::SWR),
    ];
    for (opcode, make) in cases {
        assert_eq!(decode_instruction(encode_i(opcode, 29, 8, 0xFFFC)), make(29, 8, -4));
        assert_eq!(decode_instruction(encode_i(opcode, 3, 4, 0x0100)), make(3, 4, 256));
    }
}

#[test]
fn unknown_encodings_keep_the_word() {
    for word in [
        0xFFFF_FFFFu32,
        0b010000 << 26,
        0b101111 << 26,
        0b100111 << 26,
        encode_r(1, 2, 3, 0, 0b000001),
        encode_r(1, 2, 3, 0, 0b111111),
        encode_r(0, 0, 0, 0, 0b001101),
        encode_r(1, 2, 3, 0, 0b001010),
        encode_r(1, 2, 3, 0, 0b001011),
    ] {
        assert_eq!(decode_instruction(word), Instruction::Unknown(word));
    }
}

#[test]
fn every_opcode_decodes() {
    let mut word: u32 = 0;
    loop {
        let _ = decode_instruction(word);
        let _ = decode_instruction(word | 0x03FF_FFFF);
        let _ = decode_instruction(word | 0x0155_5555);
        if word == 63 << 26 {
            break;
        }
        word += 1 << 26;
    }
    for function in 0..64u32 {
        let _ = decode_instruction(encode_r(31, 31, 31, 31, function));
    }
}

#[test]
fn machine_code_of_an_assembler() {
    assert_eq!(decode_instruction(0x0085_1021), Instruction::ADDU(4, 5, 2));
    assert_eq!(decode_instruction(0x0009_4080), Instruction::SLL(9, 8, 2));
    assert_eq!(decode_instruction(0x27BD_FFE0), Instruction::ADDIU(29, 29, -32));
    assert_eq!(decode_instruction(0x8FBF_001C), Instruction::LW(29, 31, 28));
    assert_eq!(decode_instruction(0xAFBF_001C), Instruction::SW(29, 31, 28));
    assert_eq!(decode_instruction(0x03E0_0008), Instruction::JR(31));
    assert_eq!(decode_instruction(0x0C10_0040), Instruction::JAL(0x10_0040));
    assert_eq!(decode_instruction(0x1100_0003), Instruction::BEQ(8, 0, 3));
    assert_eq!(decode_instruction(0x1509_FFFE), Instruction::BNE(8, 9, -2));
    assert_eq!(decode_instruction(0x0085_0018), Instruction::MULT(4, 5));
    assert_eq!(decode_instruction(0x0000_1012), Instruction::MFLO(2));
    assert_eq!(decode_instruction(0x3C1C_1000), Instruction::LUI(28, 0x1000));
    assert_eq!(decode_instruction(0x3484_0020), Instruction::ORI(4, 4, 0x20));
    assert_eq!(decode_instruction(0x0000_000C), Instruction::SYSCALL);
}
