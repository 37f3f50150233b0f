//! The instruction decoder: from a 32-bit word to an [`Instruction`].
//!
//! The six most significant bits of a word select its family.  Family 0 and
//! family 28 are selected further by the six least significant bits, family 1
//! by the `rt` field.

use crate::instruction::Instruction;
use vstd::prelude::*;

verus! {

/// Bits 31 to 26: the family of the encoding.
pub open spec fn opcode_field(word: u32) -> u32 {
    word / 0x400_0000
}

/// Bits 25 to 21.
pub open spec fn rs_field(word: u32) -> u32 {
    word / 0x20_0000 % 32
}

/// Bits 20 to 16.
pub open spec fn rt_field(word: u32) -> u32 {
    word / 0x1_0000 % 32
}

/// Bits 15 to 11.
pub open spec fn rd_field(word: u32) -> u32 {
    word / 0x800 % 32
}

/// Bits 10 to 6.
pub open spec fn shift_field(word: u32) -> u32 {
    word / 0x40 % 32
}

/// Bits 5 to 0.
pub open spec fn function_field(word: u32) -> u32 {
    word % 64
}

/// Bits 15 to 0, zero-extended.
pub open spec fn immediate_field(word: u32) -> u32 {
    word % 0x1_0000
}

/// Bits 15 to 0, sign-extended.
pub open spec fn signed_immediate_field(word: u32) -> i32 {
    if word % 0x1_0000 < 0x8000 {
        (word % 0x1_0000) as i32
    } else {
        (word % 0x1_0000 - 0x1_0000) as i32
    }
}

/// Bits 25 to 0.
pub open spec fn target_field(word: u32) -> u32 {
    word % 0x400_0000
}

/// The instruction that family 0 encodes in `word`.
pub open spec fn decode_r_spec(word: u32) -> Instruction {
    let rs = rs_field(word);
    let rt = rt_field(word);
    let rd = rd_field(word);
    let shift = shift_field(word);
    match function_field(word) {
        0 => Instruction::SLL(rt, rd, shift),
        2 => Instruction::SRL(rt, rd, shift),
        3 => Instruction::SRA(rt, rd, shift),
        4 => Instruction::SLLV(rs, rt, rd),
        6 => Instruction::SRLV(rs, rt, rd),
        7 => Instruction::SRAV(rs, rt, rd),
        8 => Instruction::JR(rs),
        9 => Instruction::JALR(rs, rd),
        12 => Instruction::SYSCALL,
        16 => Instruction::MFHI(rd),
        17 => Instruction::MTHI(rs),
        18 => Instruction::MFLO(rd),
        19 => Instruction::MTLO(rs),
        24 => Instruction::MULT(rs, rt),
        25 => Instruction::MULTU(rs, rt),
        26 => Instruction::DIV(rs, rt),
        27 => Instruction::DIVU(rs, rt),
        32 => Instruction::ADD(rs, rt, rd),
        33 => Instruction::ADDU(rs, rt, rd),
        34 => Instruction::SUB(rs, rt, rd),
        35 => Instruction::SUBU(rs, rt, rd),
        36 => Instruction::AND(rs, rt, rd),
        37 => Instruction::OR(rs, rt, rd),
        38 => Instruction::XOR(rs, rt, rd),
        39 => Instruction::NOR(rs, rt, rd),
        42 => Instruction::SLT(rs, rt, rd),
        43 => Instruction::SLTU(rs, rt, rd),
        52 => Instruction::TEQ(rs, rt),
        _ => Instruction::Unknown(word),
    }
}

/// The instruction that family 28 encodes in `word`.
pub open spec fn decode_r2_spec(word: u32) -> Instruction {
    if function_field(word) == 2 {
        Instruction::MUL(rs_field(word), rt_field(word), rd_field(word))
    } else {
        Instruction::Unknown(word)
    }
}

/// The instruction that family 1, the compare-with-zero branches, encodes in `word`.
pub open spec fn decode_branch_spec(word: u32) -> Instruction {
    let rs = rs_field(word);
    let offset = signed_immediate_field(word);
    match rt_field(word) {
        0 => Instruction::BLTZ(rs, offset),
        1 => Instruction::BGEZ(rs, offset),
        16 => Instruction::BLTZAL(rs, offset),
        17 => Instruction::BGEZAL(rs, offset),
        _ => Instruction::Unknown(word),
    }
}

/// The instruction that `word` encodes.  The zero word is the canonical
/// no-operation, a shift of register 0 by nothing.
pub open spec fn decode_spec(word: u32) -> Instruction {
    let rs = rs_field(word);
    let rt = rt_field(word);
    let imm = immediate_field(word);
    let simm = signed_immediate_field(word);
    match opcode_field(word) {
        0 => decode_r_spec(word),
        28 => decode_r2_spec(word),
        1 => decode_branch_spec(word),
        2 => Instruction::J(target_field(word)),
        3 => Instruction::JAL(target_field(word)),
        4 => Instruction::BEQ(rs, rt, simm),
        5 => Instruction::BNE(rs, rt, simm),
        6 => Instruction::BLEZ(rs, simm),
        7 => Instruction::BGTZ(rs, simm),
        8 => Instruction::ADDI(rs, rt, simm),
        9 => Instruction::ADDIU(rs, rt, simm),
        10 => Instruction::SLTI(rs, rt, simm),
        11 => Instruction::SLTIU(rs, rt, simm),
        12 => Instruction::ANDI(rs, rt, imm),
        13 => Instruction::ORI(rs, rt, imm),
        14 => Instruction::XORI(rs, rt, imm),
        15 => Instruction::LUI(rt, imm),
        32 => Instruction::LB(rs, rt, simm),
        33 => Instruction::LH(rs, rt, simm),
        34 => Instruction::LWL(rs, rt, simm),
        35 => Instruction::LW(rs, rt, simm),
        36 => Instruction::LBU(rs, rt, simm),
        37 => Instruction::LHU(rs, rt, simm),
        38 => Instruction::LWR(rs, rt, simm),
        40 => Instruction::SB(rs, rt, simm),
        41 => Instruction::SH(rs, rt, simm),
        42 => Instruction::SWL(rs, rt, simm),
        43 => Instruction::SW(rs, rt, simm),
        46 => Instruction::SWR(rs, rt, simm),
        _ => Instruction::Unknown(word),
    }
}

/// Shifting a field to the top of the word and back down extracts it.
proof fn lemma_fields(word: u32)
    by (bit_vector)
    ensures
        (word >> 26) == word / 0x400_0000,
        ((word << 6) >> 27) == word / 0x20_0000 % 32,
        ((word << 11) >> 27) == word / 0x1_0000 % 32,
        ((word << 16) >> 27) == word / 0x800 % 32,
        ((word << 21) >> 27) == word / 0x40 % 32,
        ((word << 26) >> 26) == word % 64,
        ((word << 16) >> 16) == word % 0x1_0000,
        ((word << 6) >> 6) == word % 0x400_0000,
{
}

/// The 16-bit immediate of `word`, sign-extended.
fn sign_extended_immediate(word: u32) -> (imm: i32)
    ensures
        imm == signed_immediate_field(word),
{
    let imm = (#[verifier::truncate] ((word << 16) as i32)) >> 16;
    assert(imm as int == if word % 0x1_0000 < 0x8000 {
        (word % 0x1_0000) as int
    } else {
        (word % 0x1_0000) as int - 0x1_0000
    }) by (bit_vector)
        requires
            imm == ((word << 16) as i32) >> 16,
    ;
    imm
}

/// The fields of an immediate encoding whose immediate is zero-extended:
/// `rs`, `rt` and the immediate.
pub fn decode_i_zero_extend(word: u32) -> (fields: (u32, u32, u32))
    ensures
        fields == (rs_field(word), rt_field(word), immediate_field(word)),
{
    proof {
        lemma_fields(word);
    }
    ((word << 6) >> 27, (word << 11) >> 27, (word << 16) >> 16)
}

/// The fields of an immediate encoding whose immediate is sign-extended:
/// `rs`, `rt` and the immediate.
pub fn decode_i_sign_extend(word: u32) -> (fields: (u32, u32, i32))
    ensures
        fields == (rs_field(word), rt_field(word), signed_immediate_field(word)),
{
    proof {
        lemma_fields(word);
    }
    ((word << 6) >> 27, (word << 11) >> 27, sign_extended_immediate(word))
}

/// The register fields of a three-register encoding: `rs`, `rt` and `rd`.
pub fn decode_r_no_shift(word: u32) -> (fields: (u32, u32, u32))
    ensures
        fields == (rs_field(word), rt_field(word), rd_field(word)),
{
    proof {
        lemma_fields(word);
    }
    ((word << 6) >> 27, (word << 11) >> 27, (word << 16) >> 27)
}

/// The fields of a shift by a constant: `rt`, `rd` and the shift amount.
pub fn decode_r_shift(word: u32) -> (fields: (u32, u32, u32))
    ensures
        fields == (rt_field(word), rd_field(word), shift_field(word)),
{
    proof {
        lemma_fields(word);
    }
    ((word << 11) >> 27, (word << 16) >> 27, (word << 21) >> 27)
}

/// The register fields of a multiplication or division: `rs` and `rt`.
pub fn decode_r_div_mul(word: u32) -> (fields: (u32, u32))
    ensures
        fields == (rs_field(word), rt_field(word)),
{
    proof {
        lemma_fields(word);
    }
    ((word << 6) >> 27, (word << 11) >> 27)
}

/// The instruction index of a jump.
pub fn decode_jump(word: u32) -> (index: u32)
    ensures
        index == target_field(word),
{
    proof {
        lemma_fields(word);
    }
    (word << 6) >> 6
}

/// Decodes a word of family 0.
pub fn decode_r_inst(word: u32) -> (inst: Instruction)
    ensures
        inst == decode_r_spec(word),
{
    proof {
        lemma_fields(word);
    }
    let sub_op_code = (word << 26) >> 26;
    let (rs, rt, rd) = decode_r_no_shift(word);
    match sub_op_code {
        0b000000 => {
            let (rt, rd, shift) = decode_r_shift(word);
            Instruction::SLL(rt, rd, shift)
        },
        0b000010 => {
            let (rt, rd, shift) = decode_r_shift(word);
            Instruction::SRL(rt, rd, shift)
        },
        0b000011 => {
            let (rt, rd, shift) = decode_r_shift(word);
            Instruction::SRA(rt, rd, shift)
        },
        0b000100 => Instruction::SLLV(rs, rt, rd),
        0b000110 => Instruction::SRLV(rs, rt, rd),
        0b000111 => Instruction::SRAV(rs, rt, rd),
        0b001000 => Instruction::JR(rs),
        0b001001 => Instruction::JALR(rs, rd),
        0b001100 => Instruction::SYSCALL,
        0b010000 => Instruction::MFHI(rd),
        0b010001 => Instruction::MTHI(rs),
        0b010010 => Instruction::MFLO(rd),
        0b010011 => Instruction::MTLO(rs),
        0b011000 => {
            let (rs, rt) = decode_r_div_mul(word);
            Instruction::MULT(rs, rt)
        },
        0b011001 => {
            let (rs, rt) = decode_r_div_mul(word);
            Instruction::MULTU(rs, rt)
        },
        0b011010 => {
            let (rs, rt) = decode_r_div_mul(word);
            Instruction::DIV(rs, rt)
        },
        0b011011 => {
            let (rs, rt) = decode_r_div_mul(word);
            Instruction::DIVU(rs, rt)
        },
        0b100000 => Instruction::ADD(rs, rt, rd),
        0b100001 => Instruction::ADDU(rs, rt, rd),
        0b100010 => Instruction::SUB(rs, rt, rd),
        0b100011 => Instruction::SUBU(rs, rt, rd),
        0b100100 => Instruction::AND(rs, rt, rd),
        0b100101 => Instruction::OR(rs, rt, rd),
        0b100110 => Instruction::XOR(rs, rt, rd),
        0b100111 => Instruction::NOR(rs, rt, rd),
        0b101010 => Instruction::SLT(rs, rt, rd),
        0b101011 => Instruction::SLTU(rs, rt, rd),
        0b110100 => Instruction::TEQ(rs, rt),
        _ => Instruction::Unknown(word),
    }
}

/// Decodes a word of family 28.
pub fn decode_r2_inst(word: u32) -> (inst: Instruction)
    ensures
        inst == decode_r2_spec(word),
{
    proof {
        lemma_fields(word);
    }
    let sub_op_code = (word << 26) >> 26;
    match sub_op_code {
        0b000010 => {
            let (rs, rt, rd) = decode_r_no_shift(word);
            Instruction::MUL(rs, rt, rd)
        },
        _ => Instruction::Unknown(word),
    }
}

/// Decodes a word of family 1, the compare-with-zero branches.
pub fn decode_branch_comp(word: u32) -> (inst: Instruction)
    ensures
        inst == decode_branch_spec(word),
{
    proof {
        lemma_fields(word);
    }
    let rs = (word << 6) >> 27;
    let offset = sign_extended_immediate(word);
    let op = (word << 11) >> 27;
    match op {
        0b00000 => Instruction::BLTZ(rs, offset),
        0b00001 => Instruction::BGEZ(rs, offset),
        0b10000 => Instruction::BLTZAL(rs, offset),
        0b10001 => Instruction::BGEZAL(rs, offset),
        _ => Instruction::Unknown(word),
    }
}

/// Decodes one word.  Every word decodes: one that is no known encoding
/// decodes to `Unknown` holding the word.
pub fn decode_instruction(word: u32) -> (inst: Instruction)
    ensures
        inst == decode_spec(word),
        inst.wf(),
        word == 0 ==> inst == Instruction::SLL(0, 0, 0),
{
    proof {
        lemma_fields(word);
        lemma_decode_wf(word);
    }
    if word == 0 {
        return Instruction::SLL(0, 0, 0);
    }
    let instruction = word >> 26;
    match instruction {
        0b000000 => decode_r_inst(word),
        0b011100 => decode_r2_inst(word),
        0b000001 => decode_branch_comp(word),
        0b000010 => Instruction::J(decode_jump(word)),
        0b000011 => Instruction::JAL(decode_jump(word)),
        0b001100 | 0b001101 | 0b001110 | 0b001111 => {
            let (rs, rt, imm) = decode_i_zero_extend(word);
            match instruction {
                0b001100 => Instruction::ANDI(rs, rt, imm),
                0b001101 => Instruction::ORI(rs, rt, imm),
                0b001110 => Instruction::XORI(rs, rt, imm),
                _ => Instruction::LUI(rt, imm),
            }
        },
        _ => {
            let (rs, rt, imm) = decode_i_sign_extend(word);
            match instruction {
                0b000100 => Instruction::BEQ(rs, rt, imm),
                0b000101 => Instruction::BNE(rs, rt, imm),
                0b000110 => Instruction::BLEZ(rs, imm),
                0b000111 => Instruction::BGTZ(rs, imm),
                0b001000 => Instruction::ADDI(rs, rt, imm),
                0b001001 => Instruction::ADDIU(rs, rt, imm),
                0b001010 => Instruction::SLTI(rs, rt, imm),
                0b001011 => Instruction::SLTIU(rs, rt, imm),
                0b100000 => Instruction::LB(rs, rt, imm),
                0b100001 => Instruction::LH(rs, rt, imm),
                0b100010 => Instruction::LWL(rs, rt, imm),
                0b100011 => Instruction::LW(rs, rt, imm),
                0b100100 => Instruction::LBU(rs, rt, imm),
                0b100101 => Instruction::LHU(rs, rt, imm),
                0b100110 => Instruction::LWR(rs, rt, imm),
                0b101000 => Instruction::SB(rs, rt, imm),
                0b101001 => Instruction::SH(rs, rt, imm),
                0b101010 => Instruction::SWL(rs, rt, imm),
                0b101011 => Instruction::SW(rs, rt, imm),
                0b101110 => Instruction::SWR(rs, rt, imm),
                _ => Instruction::Unknown(word),
            }
        },
    }
}

/// The word of the register family with these fields.
pub open spec fn register_word(rs: u32, rt: u32, rd: u32, shift: u32, function: u32) -> u32 {
    (rs * 0x20_0000 + rt * 0x1_0000 + rd * 0x800 + shift * 0x40 + function) as u32
}

/// The word with this opcode, these registers and this 16-bit field.
pub open spec fn immediate_word(opcode: u32, rs: u32, rt: u32, imm: u32) -> u32 {
    (opcode * 0x400_0000 + rs * 0x20_0000 + rt * 0x1_0000 + imm) as u32
}

/// The word with this opcode and this instruction index.
pub open spec fn jump_word(opcode: u32, index: u32) -> u32 {
    (opcode * 0x400_0000 + index) as u32
}

/// The 16-bit field that holds a signed immediate.
pub open spec fn low_half(imm: i32) -> u32 {
    if imm >= 0 {
        imm as u32
    } else {
        (imm + 0x1_0000) as u32
    }
}

/// The word that encodes an instruction, for the instructions that the
/// decoder knows.  Fields that an instruction does not use are zero.
pub open spec fn encode_spec(inst: Instruction) -> Option<u32> {
    match inst {
        Instruction::Unknown(_) | Instruction::BREAK | Instruction::MOVN(..) | Instruction::MOVZ(
            ..,
        ) => None,
        Instruction::ADD(rs, rt, rd) => Some(register_word(rs, rt, rd, 0, 32)),
        Instruction::ADDI(rs, rt, imm) => Some(immediate_word(8, rs, rt, low_half(imm))),
        Instruction::ADDIU(rs, rt, imm) => Some(immediate_word(9, rs, rt, low_half(imm))),
        Instruction::ADDU(rs, rt, rd) => Some(register_word(rs, rt, rd, 0, 33)),
        Instruction::AND(rs, rt, rd) => Some(register_word(rs, rt, rd, 0, 36)),
        Instruction::ANDI(rs, rt, imm) => Some(immediate_word(12, rs, rt, imm)),
        Instruction::BEQ(rs, rt, imm) => Some(immediate_word(4, rs, rt, low_half(imm))),
        Instruction::BGEZ(rs, offset) => Some(immediate_word(1, rs, 1, low_half(offset))),
        Instruction::BGEZAL(rs, offset) => Some(immediate_word(1, rs, 17, low_half(offset))),
        Instruction::BGTZ(rs, offset) => Some(immediate_word(7, rs, 0, low_half(offset))),
        Instruction::BLEZ(rs, offset) => Some(immediate_word(6, rs, 0, low_half(offset))),
        Instruction::BLTZ(rs, offset) => Some(immediate_word(1, rs, 0, low_half(offset))),
        Instruction::BLTZAL(rs, offset) => Some(immediate_word(1, rs, 16, low_half(offset))),
        Instruction::BNE(rs, rt, imm) => Some(immediate_word(5, rs, rt, low_half(imm))),
        Instruction::DIV(rs, rt) => Some(register_word(rs, rt, 0, 0, 26)),
        Instruction::DIVU(rs, rt) => Some(register_word(rs, rt, 0, 0, 27)),
        Instruction::J(index) => Some(jump_word(2, index)),
        Instruction::JAL(index) => Some(jump_word(3, index)),
        Instruction::JALR(rs, rd) => Some(register_word(rs, 0, rd, 0, 9)),
        Instruction::JR(rs) => Some(register_word(rs, 0, 0, 0, 8)),
        Instruction::LB(rs, rt, imm) => Some(immediate_word(32, rs, rt, low_half(imm))),
        Instruction::LBU(rs, rt, imm) => Some(immediate_word(36, rs, rt, low_half(imm))),
        Instruction::LH(rs, rt, imm) => Some(immediate_word(33, rs, rt, low_half(imm))),
        Instruction::LHU(rs, rt, imm) => Some(immediate_word(37, rs, rt, low_half(imm))),
        Instruction::LUI(rt, imm) => Some(immediate_word(15, 0, rt, imm)),
        Instruction::LW(rs, rt, imm) => Some(immediate_word(35, rs, rt, low_half(imm))),
        Instruction::LWL(rs, rt, imm) => Some(immediate_word(34, rs, rt, low_half(imm))),
        Instruction::LWR(rs, rt, imm) => Some(immediate_word(38, rs, rt, low_half(imm))),
        Instruction::MFHI(rd) => Some(register_word(0, 0, rd, 0, 16)),
        Instruction::MFLO(rd) => Some(register_word(0, 0, rd, 0, 18)),
        Instruction::MTHI(rs) => Some(register_word(rs, 0, 0, 0, 17)),
        Instruction::MTLO(rs) => Some(register_word(rs, 0, 0, 0, 19)),
        Instruction::MUL(rs, rt, rd) => Some((0x7000_0000 + register_word(rs, rt, rd, 0, 2)) as u32),
        Instruction::MULT(rs, rt) => Some(register_word(rs, rt, 0, 0, 24)),
        Instruction::MULTU(rs, rt) => Some(register_word(rs, rt, 0, 0, 25)),
        Instruction::NOR(rs, rt, rd) => Some(register_word(rs, rt, rd, 0, 39)),
        Instruction::OR(rs, rt, rd) => Some(register_word(rs, rt, rd, 0, 37)),
        Instruction::ORI(rs, rt, imm) => Some(immediate_word(13, rs, rt, imm)),
        Instruction::SB(rs, rt, imm) => Some(immediate_word(40, rs, rt, low_half(imm))),
        Instruction::SH(rs, rt, imm) => Some(immediate_word(41, rs, rt, low_half(imm))),
        Instruction::SLL(rt, rd, shift) => Some(register_word(0, rt, rd, shift, 0)),
        Instruction::SLLV(rs, rt, rd) => Some(register_word(rs, rt, rd, 0, 4)),
        Instruction::SLT(rs, rt, rd) => Some(register_word(rs, rt, rd, 0, 42)),
        Instruction::SLTI(rs, rt, imm) => Some(immediate_word(10, rs, rt, low_half(imm))),
        Instruction::SLTIU(rs, rt, imm) => Some(immediate_word(11, rs, rt, low_half(imm))),
        Instruction::SLTU(rs, rt, rd) => Some(register_word(rs, rt, rd, 0, 43)),
        Instruction::SRA(rt, rd, shift) => Some(register_word(0, rt, rd, shift, 3)),
        Instruction::SRAV(rs, rt, rd) => Some(register_word(rs, rt, rd, 0, 7)),
        Instruction::SRL(rt, rd, shift) => Some(register_word(0, rt, rd, shift, 2)),
        Instruction::SRLV(rs, rt, rd) => Some(register_word(rs, rt, rd, 0, 6)),
        Instruction::SUB(rs, rt, rd) => Some(register_word(rs, rt, rd, 0, 34)),
        Instruction::SUBU(rs, rt, rd) => Some(register_word(rs, rt, rd, 0, 35)),
        Instruction::SW(rs, rt, imm) => Some(immediate_word(43, rs, rt, low_half(imm))),
        Instruction::SWL(rs, rt, imm) => Some(immediate_word(42, rs, rt, low_half(imm))),
        Instruction::SWR(rs, rt, imm) => Some(immediate_word(46, rs, rt, low_half(imm))),
        Instruction::SYSCALL => Some(register_word(0, 0, 0, 0, 12)),
        Instruction::TEQ(rs, rt) => Some(register_word(rs, rt, 0, 0, 52)),
        Instruction::XOR(rs, rt, rd) => Some(register_word(rs, rt, rd, 0, 38)),
        Instruction::XORI(rs, rt, imm) => Some(immediate_word(14, rs, rt, imm)),
    }
}

/// The fields of a word that was composed of fields are those fields.
proof fn lemma_fields_of_word(a: u32, b: u32, c: u32, d: u32, e: u32, f: u32)
    by (bit_vector)
    requires
        a < 64,
        b < 32,
        c < 32,
        d < 32,
        e < 32,
        f < 64,
    ensures
        ({
            let word = (a * 0x400_0000 + b * 0x20_0000 + c * 0x1_0000 + d * 0x800 + e * 0x40
                + f) as u32;
            &&& word / 0x400_0000 == a
            &&& word / 0x20_0000 % 32 == b
            &&& word / 0x1_0000 % 32 == c
            &&& word / 0x800 % 32 == d
            &&& word / 0x40 % 32 == e
            &&& word % 64 == f
        }),
{
}

/// The fields of a word that was composed of an opcode, two registers and a
/// 16-bit field are those, and so for an opcode and an instruction index.
proof fn lemma_fields_of_immediate_word(a: u32, b: u32, c: u32, imm: u32, index: u32)
    by (bit_vector)
    requires
        a < 64,
        b < 32,
        c < 32,
        imm < 0x1_0000,
        index < 0x400_0000,
    ensures
        ({
            let word = (a * 0x400_0000 + b * 0x20_0000 + c * 0x1_0000 + imm) as u32;
            &&& word / 0x400_0000 == a
            &&& word / 0x20_0000 % 32 == b
            &&& word / 0x1_0000 % 32 == c
            &&& word % 0x1_0000 == imm
        }),
        ({
            let word = (a * 0x400_0000 + index) as u32;
            &&& word / 0x400_0000 == a
            &&& word % 0x400_0000 == index
        }),
{
}

/// Decoding inverts encoding: a well-formed instruction is what its word
/// decodes to.
#[verifier::spinoff_prover]
#[verifier::rlimit(80)]
pub proof fn lemma_decode_encoded(inst: Instruction)
    requires
        inst.wf(),
        encode_spec(inst) is Some,
    ensures
        decode_spec(encode_spec(inst).unwrap()) == inst,
{
    match inst {
        Instruction::Unknown(_) | Instruction::BREAK | Instruction::MOVN(..) | Instruction::MOVZ(
            ..,
        ) => {},
        Instruction::ADD(rs, rt, rd) => {
            lemma_fields_of_word(0, rs, rt, rd, 0, 32);
        },
        Instruction::ADDI(rs, rt, imm) => {
            lemma_fields_of_immediate_word(8, rs, rt, low_half(imm), 0);
        },
        Instruction::ADDIU(rs, rt, imm) => {
            lemma_fields_of_immediate_word(9, rs, rt, low_half(imm), 0);
        },
        Instruction::ADDU(rs, rt, rd) => {
            lemma_fields_of_word(0, rs, rt, rd, 0, 33);
        },
        Instruction::AND(rs, rt, rd) => {
            lemma_fields_of_word(0, rs, rt, rd, 0, 36);
        },
        Instruction::ANDI(rs, rt, imm) => {
            lemma_fields_of_immediate_word(12, rs, rt, imm, 0);
        },
        Instruction::BEQ(rs, rt, imm) => {
            lemma_fields_of_immediate_word(4, rs, rt, low_half(imm), 0);
        },
        Instruction::BGEZ(rs, offset) => {
            lemma_fields_of_immediate_word(1, rs, 1, low_half(offset), 0);
        },
        Instruction::BGEZAL(rs, offset) => {
            lemma_fields_of_immediate_word(1, rs, 17, low_half(offset), 0);
        },
        Instruction::BGTZ(rs, offset) => {
            lemma_fields_of_immediate_word(7, rs, 0, low_half(offset), 0);
        },
        Instruction::BLEZ(rs, offset) => {
            lemma_fields_of_immediate_word(6, rs, 0, low_half(offset), 0);
        },
        Instruction::BLTZ(rs, offset) => {
            lemma_fields_of_immediate_word(1, rs, 0, low_half(offset), 0);
        },
        Instruction::BLTZAL(rs, offset) => {
            lemma_fields_of_immediate_word(1, rs, 16, low_half(offset), 0);
        },
        Instruction::BNE(rs, rt, imm) => {
            lemma_fields_of_immediate_word(5, rs, rt, low_half(imm), 0);
        },
        Instruction::DIV(rs, rt) => {
            lemma_fields_of_word(0, rs, rt, 0, 0, 26);
        },
        Instruction::DIVU(rs, rt) => {
            lemma_fields_of_word(0, rs, rt, 0, 0, 27);
        },
        Instruction::J(index) => {
            lemma_fields_of_immediate_word(2, 0, 0, 0, index);
        },
        Instruction::JAL(index) => {
            lemma_fields_of_immediate_word(3, 0, 0, 0, index);
        },
        Instruction::JALR(rs, rd) => {
            lemma_fields_of_word(0, rs, 0, rd, 0, 9);
        },
        Instruction::JR(rs) => {
            lemma_fields_of_word(0, rs, 0, 0, 0, 8);
        },
        Instruction::LB(rs, rt, imm) => {
            lemma_fields_of_immediate_word(32, rs, rt, low_half(imm), 0);
        },
        Instruction::LBU(rs, rt, imm) => {
            lemma_fields_of_immediate_word(36, rs, rt, low_half(imm), 0);
        },
        Instruction::LH(rs, rt, imm) => {
            lemma_fields_of_immediate_word(33, rs, rt, low_half(imm), 0);
        },
        Instruction::LHU(rs, rt, imm) => {
            lemma_fields_of_immediate_word(37, rs, rt, low_half(imm), 0);
        },
        Instruction::LUI(rt, imm) => {
            lemma_fields_of_immediate_word(15, 0, rt, imm, 0);
        },
        Instruction::LW(rs, rt, imm) => {
            lemma_fields_of_immediate_word(35, rs, rt, low_half(imm), 0);
        },
        Instruction::LWL(rs, rt, imm) => {
            lemma_fields_of_immediate_word(34, rs, rt, low_half(imm), 0);
        },
        Instruction::LWR(rs, rt, imm) => {
            lemma_fields_of_immediate_word(38, rs, rt, low_half(imm), 0);
        },
        Instruction::MFHI(rd) => {
            lemma_fields_of_word(0, 0, 0, rd, 0, 16);
        },
        Instruction::MFLO(rd) => {
            lemma_fields_of_word(0, 0, 0, rd, 0, 18);
        },
        Instruction::MTHI(rs) => {
            lemma_fields_of_word(0, rs, 0, 0, 0, 17);
        },
        Instruction::MTLO(rs) => {
            lemma_fields_of_word(0, rs, 0, 0, 0, 19);
        },
        Instruction::MUL(rs, rt, rd) => {
            lemma_fields_of_word(28, rs, rt, rd, 0, 2);
        },
        Instruction::MULT(rs, rt) => {
            lemma_fields_of_word(0, rs, rt, 0, 0, 24);
        },
        Instruction::MULTU(rs, rt) => {
            lemma_fields_of_word(0, rs, rt, 0, 0, 25);
        },
        Instruction::NOR(rs, rt, rd) => {
            lemma_fields_of_word(0, rs, rt, rd, 0, 39);
        },
        Instruction::OR(rs, rt, rd) => {
            lemma_fields_of_word(0, rs, rt, rd, 0, 37);
        },
        Instruction::ORI(rs, rt, imm) => {
            lemma_fields_of_immediate_word(13, rs, rt, imm, 0);
        },
        Instruction::SB(rs, rt, imm) => {
            lemma_fields_of_immediate_word(40, rs, rt, low_half(imm), 0);
        },
        Instruction::SH(rs, rt, imm) => {
            lemma_fields_of_immediate_word(41, rs, rt, low_half(imm), 0);
        },
        Instruction::SLL(rt, rd, shift) => {
            lemma_fields_of_word(0, 0, rt, rd, shift, 0);
        },
        Instruction::SLLV(rs, rt, rd) => {
            lemma_fields_of_word(0, rs, rt, rd, 0, 4);
        },
        Instruction::SLT(rs, rt, rd) => {
            lemma_fields_of_word(0, rs, rt, rd, 0, 42);
        },
        Instruction::SLTI(rs, rt, imm) => {
            lemma_fields_of_immediate_word(10, rs, rt, low_half(imm), 0);
        },
        Instruction::SLTIU(rs, rt, imm) => {
            lemma_fields_of_immediate_word(11, rs, rt, low_half(imm), 0);
        },
        Instruction::SLTU(rs, rt, rd) => {
            lemma_fields_of_word(0, rs, rt, rd, 0, 43);
        },
        Instruction::SRA(rt, rd, shift) => {
            lemma_fields_of_word(0, 0, rt, rd, shift, 3);
        },
        Instruction::SRAV(rs, rt, rd) => {
            lemma_fields_of_word(0, rs, rt, rd, 0, 7);
        },
        Instruction::SRL(rt, rd, shift) => {
            lemma_fields_of_word(0, 0, rt, rd, shift, 2);
        },
        Instruction::SRLV(rs, rt, rd) => {
            lemma_fields_of_word(0, rs, rt, rd, 0, 6);
        },
        Instruction::SUB(rs, rt, rd) => {
            lemma_fields_of_word(0, rs, rt, rd, 0, 34);
        },
        Instruction::SUBU(rs, rt, rd) => {
            lemma_fields_of_word(0, rs, rt, rd, 0, 35);
        },
        Instruction::SW(rs, rt, imm) => {
            lemma_fields_of_immediate_word(43, rs, rt, low_half(imm), 0);
        },
        Instruction::SWL(rs, rt, imm) => {
            lemma_fields_of_immediate_word(42, rs, rt, low_half(imm), 0);
        },
        Instruction::SWR(rs, rt, imm) => {
            lemma_fields_of_immediate_word(46, rs, rt, low_half(imm), 0);
        },
        Instruction::SYSCALL => {
            lemma_fields_of_word(0, 0, 0, 0, 0, 12);
        },
        Instruction::TEQ(rs, rt) => {
            lemma_fields_of_word(0, rs, rt, 0, 0, 52);
        },
        Instruction::XOR(rs, rt, rd) => {
            lemma_fields_of_word(0, rs, rt, rd, 0, 38);
        },
        Instruction::XORI(rs, rt, imm) => {
            lemma_fields_of_immediate_word(14, rs, rt, imm, 0);
        },
    }
}

/// Every field of a word lies in its range, so what a word decodes to is
/// well-formed.
pub proof fn lemma_decode_wf(word: u32)
    ensures
        decode_spec(word).wf(),
{
}

/// The zero word decodes to the canonical no-operation.
pub proof fn lemma_decode_zero()
    ensures
        decode_spec(0) == Instruction::SLL(0, 0, 0),
{
}

} // verus!
