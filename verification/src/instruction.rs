//! The instructions the processor knows, as decoded values.

use crate::cpu::{Cpu, PCOperation, Signal};
use crate::decoder::{decode_instruction, decode_spec};
use crate::executer::{applied, apply_instruction};
use crate::text::{
    binary_digits, decimal, push_binary, push_decimal, push_signed_decimal, signed_decimal,
};
use vstd::prelude::*;
use vstd::string::*;

verus! {

/// One decoded instruction.  Register operands are register numbers, `shift`
/// operands are shift amounts, signed immediates and branch offsets are
/// sign-extended 16-bit fields, unsigned immediates are zero-extended 16-bit
/// fields and jump targets are 26-bit instruction indices.
#[allow(non_camel_case_types)]
#[derive(Debug, Clone, Copy, PartialEq, Eq, Structural)]
pub enum Instruction {
    /// A word that is no known encoding.
    Unknown(u32),
    /// rs, rt, rd
    ADD(u32, u32, u32),
    /// rs, rt, imm
    ADDI(u32, u32, i32),
    /// rs, rt, imm
    ADDIU(u32, u32, i32),
    /// rs, rt, rd
    ADDU(u32, u32, u32),
    /// rs, rt, rd
    AND(u32, u32, u32),
    /// rs, rt, imm
    ANDI(u32, u32, u32),
    /// rs, rt, offset
    BEQ(u32, u32, i32),
    /// rs, offset
    BGEZ(u32, i32),
    /// rs, offset
    BGEZAL(u32, i32),
    /// rs, offset
    BGTZ(u32, i32),
    /// rs, offset
    BLEZ(u32, i32),
    /// rs, offset
    BLTZ(u32, i32),
    /// rs, offset
    BLTZAL(u32, i32),
    /// rs, rt, offset
    BNE(u32, u32, i32),
    BREAK,
    /// rs, rt
    DIV(u32, u32),
    /// rs, rt
    DIVU(u32, u32),
    /// instr_index
    J(u32),
    /// instr_index
    JAL(u32),
    /// rs, rd
    JALR(u32, u32),
    /// rs
    JR(u32),
    /// base, rt, offset
    LB(u32, u32, i32),
    /// base, rt, offset
    LBU(u32, u32, i32),
    /// base, rt, offset
    LH(u32, u32, i32),
    /// base, rt, offset
    LHU(u32, u32, i32),
    /// rt, imm
    LUI(u32, u32),
    /// base, rt, offset
    LW(u32, u32, i32),
    /// base, rt, offset
    LWL(u32, u32, i32),
    /// base, rt, offset
    LWR(u32, u32, i32),
    /// rd
    MFHI(u32),
    /// rd
    MFLO(u32),
    /// rs, rt, rd
    MOVN(u32, u32, u32),
    /// rs, rt, rd
    MOVZ(u32, u32, u32),
    /// rs
    MTHI(u32),
    /// rs
    MTLO(u32),
    /// rs, rt, rd
    MUL(u32, u32, u32),
    /// rs, rt
    MULT(u32, u32),
    /// rs, rt
    MULTU(u32, u32),
    /// rs, rt, rd
    NOR(u32, u32, u32),
    /// rs, rt, rd
    OR(u32, u32, u32),
    /// rs, rt, imm
    ORI(u32, u32, u32),
    /// base, rt, offset
    SB(u32, u32, i32),
    /// base, rt, offset
    SH(u32, u32, i32),
    /// rt, rd, shift
    SLL(u32, u32, u32),
    /// rs, rt, rd
    SLLV(u32, u32, u32),
    /// rs, rt, rd
    SLT(u32, u32, u32),
    /// rs, rt, rd
    SLTU(u32, u32, u32),
    /// rs, rt, imm
    SLTI(u32, u32, i32),
    /// rs, rt, imm
    SLTIU(u32, u32, i32),
    /// rt, rd, shift
    SRA(u32, u32, u32),
    /// rs, rt, rd
    SRAV(u32, u32, u32),
    /// rt, rd, shift
    SRL(u32, u32, u32),
    /// rs, rt, rd
    SRLV(u32, u32, u32),
    /// rs, rt, rd
    SUB(u32, u32, u32),
    /// rs, rt, rd
    SUBU(u32, u32, u32),
    /// base, rt, offset
    SW(u32, u32, i32),
    /// base, rt, offset
    SWL(u32, u32, i32),
    /// base, rt, offset
    SWR(u32, u32, i32),
    SYSCALL,
    /// rs, rt
    TEQ(u32, u32),
    /// rs, rt, rd
    XOR(u32, u32, u32),
    /// rs, rt, imm
    XORI(u32, u32, u32),
}

/// A register number or a shift amount: five bits.
pub open spec fn is_reg(r: u32) -> bool {
    r < 32
}

/// A sign-extended 16-bit field.
pub open spec fn is_simm(imm: i32) -> bool {
    -0x8000 <= imm < 0x8000
}

/// A zero-extended 16-bit field.
pub open spec fn is_uimm(imm: u32) -> bool {
    imm < 0x1_0000
}

/// A 26-bit instruction index.
pub open spec fn is_target(index: u32) -> bool {
    index < 0x400_0000
}

impl Instruction {
    /// Every operand lies in the range of the field it is decoded from.
    pub open spec fn wf(self) -> bool {
        match self {
            Instruction::Unknown(_) | Instruction::BREAK | Instruction::SYSCALL => true,
            Instruction::ADD(a, b, c)
            | Instruction::ADDU(a, b, c)
            | Instruction::AND(a, b, c)
            | Instruction::MOVN(a, b, c)
            | Instruction::MOVZ(a, b, c)
            | Instruction::MUL(a, b, c)
            | Instruction::NOR(a, b, c)
            | Instruction::OR(a, b, c)
            | Instruction::SLL(a, b, c)
            | Instruction::SLLV(a, b, c)
            | Instruction::SLT(a, b, c)
            | Instruction::SLTU(a, b, c)
            | Instruction::SRA(a, b, c)
            | Instruction::SRAV(a, b, c)
            | Instruction::SRL(a, b, c)
            | Instruction::SRLV(a, b, c)
            | Instruction::SUB(a, b, c)
            | Instruction::SUBU(a, b, c)
            | Instruction::XOR(a, b, c) => is_reg(a) && is_reg(b) && is_reg(c),
            Instruction::ADDI(a, b, imm)
            | Instruction::ADDIU(a, b, imm)
            | Instruction::BEQ(a, b, imm)
            | Instruction::BNE(a, b, imm)
            | Instruction::LB(a, b, imm)
            | Instruction::LBU(a, b, imm)
            | Instruction::LH(a, b, imm)
            | Instruction::LHU(a, b, imm)
            | Instruction::LW(a, b, imm)
            | Instruction::LWL(a, b, imm)
            | Instruction::LWR(a, b, imm)
            | Instruction::SB(a, b, imm)
            | Instruction::SH(a, b, imm)
            | Instruction::SLTI(a, b, imm)
            | Instruction::SLTIU(a, b, imm)
            | Instruction::SW(a, b, imm)
            | Instruction::SWL(a, b, imm)
            | Instruction::SWR(a, b, imm) => is_reg(a) && is_reg(b) && is_simm(imm),
            Instruction::ANDI(a, b, imm)
            | Instruction::ORI(a, b, imm)
            | Instruction::XORI(a, b, imm) => is_reg(a) && is_reg(b) && is_uimm(imm),
            Instruction::BGEZ(a, imm)
            | Instruction::BGEZAL(a, imm)
            | Instruction::BGTZ(a, imm)
            | Instruction::BLEZ(a, imm)
            | Instruction::BLTZ(a, imm)
            | Instruction::BLTZAL(a, imm) => is_reg(a) && is_simm(imm),
            Instruction::DIV(a, b)
            | Instruction::DIVU(a, b)
            | Instruction::JALR(a, b)
            | Instruction::MULT(a, b)
            | Instruction::MULTU(a, b)
            | Instruction::TEQ(a, b) => is_reg(a) && is_reg(b),
            Instruction::J(index) | Instruction::JAL(index) => is_target(index),
            Instruction::JR(a)
            | Instruction::MFHI(a)
            | Instruction::MFLO(a)
            | Instruction::MTHI(a)
            | Instruction::MTLO(a) => is_reg(a),
            Instruction::LUI(a, imm) => is_reg(a) && is_uimm(imm),
        }
    }

    /// Executes the instruction on the processor.
    pub fn apply(&self, cpu: &mut Cpu) -> (outcome: Result<PCOperation, Signal>)
        requires
            self.wf(),
        ensures
            applied(*self, old(cpu)@, final(cpu)@, outcome),
    {
        apply_instruction(self, cpu)
    }

    /// The instruction that a word encodes.
    pub fn from_word(word: u32) -> (inst: Instruction)
        ensures
            inst == decode_spec(word),
            inst.wf(),
    {
        decode_instruction(word)
    }
}

/// The text of a register operand: `$` and the number of the register.
pub open spec fn register_text(register: u32) -> Seq<char> {
    seq!['$'] + decimal(register as nat)
}

/// `name $a, $b, $c`
pub open spec fn three_registers_text(name: Seq<char>, a: u32, b: u32, c: u32) -> Seq<char> {
    name + seq![' '] + register_text(a) + seq![',', ' '] + register_text(b) + seq![',', ' ']
        + register_text(c)
}

/// `name $a, $b, value`
pub open spec fn two_registers_signed_text(name: Seq<char>, a: u32, b: u32, value: i32) -> Seq<
    char,
> {
    name + seq![' '] + register_text(a) + seq![',', ' '] + register_text(b) + seq![',', ' ']
        + signed_decimal(value as int)
}

/// `name $a, $b, value`
pub open spec fn two_registers_unsigned_text(name: Seq<char>, a: u32, b: u32, value: u32) -> Seq<
    char,
> {
    name + seq![' '] + register_text(a) + seq![',', ' '] + register_text(b) + seq![',', ' ']
        + decimal(value as nat)
}

/// `name $a, value`
pub open spec fn register_signed_text(name: Seq<char>, a: u32, value: i32) -> Seq<char> {
    name + seq![' '] + register_text(a) + seq![',', ' '] + signed_decimal(value as int)
}

/// `name $a, value`
pub open spec fn register_unsigned_text(name: Seq<char>, a: u32, value: u32) -> Seq<char> {
    name + seq![' '] + register_text(a) + seq![',', ' '] + decimal(value as nat)
}

/// `name $a, $b`
pub open spec fn two_registers_text(name: Seq<char>, a: u32, b: u32) -> Seq<char> {
    name + seq![' '] + register_text(a) + seq![',', ' '] + register_text(b)
}

/// `name value`
pub open spec fn one_value_text(name: Seq<char>, value: u32) -> Seq<char> {
    name + seq![' '] + decimal(value as nat)
}

/// `name $a`
pub open spec fn one_register_text(name: Seq<char>, a: u32) -> Seq<char> {
    name + seq![' '] + register_text(a)
}

/// `name $rt, offset($base)`
pub open spec fn memory_operand_text(name: Seq<char>, rt: u32, offset: i32, base: u32) -> Seq<
    char,
> {
    name + seq![' '] + register_text(rt) + seq![',', ' '] + signed_decimal(offset as int)
        + seq!['('] + register_text(base) + seq![')']
}

impl Instruction {
    /// The instruction in assembly notation.
    pub open spec fn text(self) -> Seq<char> {
        match self {
            Instruction::Unknown(word) => "Unknwown "@ + binary_digits(word as nat, 32),
            Instruction::BREAK => "break"@,
            Instruction::SYSCALL => "syscall"@,
            Instruction::ADD(rs, rt, rd) => three_registers_text("add"@, rd, rs, rt),
            Instruction::ADDI(rs, rt, imm) => two_registers_signed_text("addi"@, rt, rs, imm),
            Instruction::ADDIU(rs, rt, imm) => two_registers_signed_text("addiu"@, rt, rs, imm),
            Instruction::ADDU(rs, rt, rd) => three_registers_text("addu"@, rd, rs, rt),
            Instruction::AND(rs, rt, rd) => three_registers_text("and"@, rd, rs, rt),
            Instruction::ANDI(rs, rt, imm) => two_registers_unsigned_text("andi"@, rt, rs, imm),
            Instruction::BEQ(rs, rt, offset) => two_registers_signed_text("beq"@, rs, rt, offset),
            Instruction::BGEZ(rs, offset) => register_signed_text("bgez"@, rs, offset),
            Instruction::BGEZAL(rs, offset) => register_signed_text("bgezal"@, rs, offset),
            Instruction::BGTZ(rs, offset) => register_signed_text("bgtz"@, rs, offset),
            Instruction::BLEZ(rs, offset) => register_signed_text("blez"@, rs, offset),
            Instruction::BLTZ(rs, offset) => register_signed_text("bltz"@, rs, offset),
            Instruction::BLTZAL(rs, offset) => register_signed_text("bltzal"@, rs, offset),
            Instruction::BNE(rs, rt, offset) => two_registers_signed_text("bne"@, rs, rt, offset),
            Instruction::DIV(rs, rt) => two_registers_text("div"@, rs, rt),
            Instruction::DIVU(rs, rt) => two_registers_text("divu"@, rs, rt),
            Instruction::J(index) => one_value_text("j"@, index),
            Instruction::JAL(index) => one_value_text("jal"@, index),
            Instruction::JALR(rs, rd) => two_registers_text("jalr"@, rd, rs),
            Instruction::JR(rs) => one_register_text("jr"@, rs),
            Instruction::LB(base, rt, offset) => memory_operand_text("lb"@, rt, offset, base),
            Instruction::LBU(base, rt, offset) => memory_operand_text("lbu"@, rt, offset, base),
            Instruction::LH(base, rt, offset) => memory_operand_text("lh"@, rt, offset, base),
            Instruction::LHU(base, rt, offset) => memory_operand_text("lhu"@, rt, offset, base),
            Instruction::LUI(rt, imm) => register_unsigned_text("lui"@, rt, imm),
            Instruction::LW(base, rt, offset) => memory_operand_text("lw"@, rt, offset, base),
            Instruction::LWL(base, rt, offset) => memory_operand_text("lwl"@, rt, offset, base),
            Instruction::LWR(base, rt, offset) => memory_operand_text("lwr"@, rt, offset, base),
            Instruction::MFHI(rd) => one_register_text("mfhi"@, rd),
            Instruction::MFLO(rd) => one_register_text("mflo"@, rd),
            Instruction::MOVN(rs, rt, rd) => three_registers_text("movn"@, rd, rs, rt),
            Instruction::MOVZ(rs, rt, rd) => three_registers_text("movz"@, rd, rs, rt),
            Instruction::MTHI(rs) => one_register_text("mthi"@, rs),
            Instruction::MTLO(rs) => one_register_text("mtlo"@, rs),
            Instruction::MUL(rs, rt, rd) => three_registers_text("mul"@, rd, rs, rt),
            Instruction::MULT(rs, rt) => two_registers_text("mult"@, rs, rt),
            Instruction::MULTU(rs, rt) => two_registers_text("multu"@, rs, rt),
            Instruction::NOR(rs, rt, rd) => three_registers_text("nor"@, rd, rs, rt),
            Instruction::OR(rs, rt, rd) => three_registers_text("or"@, rd, rs, rt),
            Instruction::ORI(rs, rt, imm) => two_registers_unsigned_text("ori"@, rt, rs, imm),
            Instruction::SB(base, rt, offset) => memory_operand_text("sb"@, rt, offset, base),
            Instruction::SH(base, rt, offset) => memory_operand_text("sh"@, rt, offset, base),
            Instruction::SLL(rt, rd, shift) => two_registers_unsigned_text("sll"@, rd, rt, shift),
            Instruction::SLLV(rs, rt, rd) => three_registers_text("sllv"@, rd, rt, rs),
            Instruction::SLT(rs, rt, rd) => three_registers_text("slt"@, rd, rs, rt),
            Instruction::SLTI(rs, rt, imm) => two_registers_signed_text("slti"@, rs, rt, imm),
            Instruction::SLTIU(rs, rt, imm) => two_registers_signed_text("sltiu"@, rs, rt, imm),
            Instruction::SLTU(rs, rt, rd) => three_registers_text("sltu"@, rd, rs, rt),
            Instruction::SRA(rt, rd, shift) => two_registers_unsigned_text("sra"@, rd, rt, shift),
            Instruction::SRAV(rs, rt, rd) => three_registers_text("srav"@, rd, rt, rs),
            Instruction::SRL(rt, rd, shift) => two_registers_unsigned_text("srl"@, rd, rt, shift),
            Instruction::SRLV(rs, rt, rd) => three_registers_text("srlv"@, rd, rt, rs),
            Instruction::SUB(rs, rt, rd) => three_registers_text("sub"@, rd, rs, rt),
            Instruction::SUBU(rs, rt, rd) => three_registers_text("subu"@, rd, rs, rt),
            Instruction::SW(base, rt, offset) => memory_operand_text("sw"@, rt, offset, base),
            Instruction::SWL(base, rt, offset) => memory_operand_text("swl"@, rt, offset, base),
            Instruction::SWR(base, rt, offset) => memory_operand_text("swr"@, rt, offset, base),
            Instruction::TEQ(rs, rt) => two_registers_text("teq"@, rs, rt),
            Instruction::XOR(rs, rt, rd) => three_registers_text("xor"@, rd, rs, rt),
            Instruction::XORI(rs, rt, imm) => two_registers_unsigned_text("xori"@, rt, rs, imm),
        }
    }
}

/// Starts the text of an instruction: its name and a space.
fn start_text(name: &str) -> (text: String)
    ensures
        text@ == name@ + seq![' '],
{
    proof {
        reveal_strlit(" ");
    }
    let mut text = String::new();
    text.append(name);
    text.append(" ");
    assert(text@ =~= name@ + seq![' ']);
    text
}

/// Appends a register operand to a text.
fn push_register(text: &mut String, register: u32)
    ensures
        final(text)@ == old(text)@ + register_text(register),
{
    proof {
        reveal_strlit("$");
    }
    text.append("$");
    push_decimal(text, register);
    assert(text@ =~= old(text)@ + register_text(register));
}

/// Appends the separator of operands to a text.
fn push_separator(text: &mut String)
    ensures
        final(text)@ == old(text)@ + seq![',', ' '],
{
    proof {
        reveal_strlit(", ");
    }
    text.append(", ");
    assert(text@ =~= old(text)@ + seq![',', ' ']);
}

fn three_registers(name: &str, a: u32, b: u32, c: u32) -> (text: String)
    ensures
        text@ == three_registers_text(name@, a, b, c),
{
    let mut text = start_text(name);
    push_register(&mut text, a);
    push_separator(&mut text);
    push_register(&mut text, b);
    push_separator(&mut text);
    push_register(&mut text, c);
    text
}

fn two_registers_signed(name: &str, a: u32, b: u32, value: i32) -> (text: String)
    ensures
        text@ == two_registers_signed_text(name@, a, b, value),
{
    let mut text = start_text(name);
    push_register(&mut text, a);
    push_separator(&mut text);
    push_register(&mut text, b);
    push_separator(&mut text);
    push_signed_decimal(&mut text, value);
    text
}

fn two_registers_unsigned(name: &str, a: u32, b: u32, value: u32) -> (text: String)
    ensures
        text@ == two_registers_unsigned_text(name@, a, b, value),
{
    let mut text = start_text(name);
    push_register(&mut text, a);
    push_separator(&mut text);
    push_register(&mut text, b);
    push_separator(&mut text);
    push_decimal(&mut text, value);
    text
}

fn register_signed(name: &str, a: u32, value: i32) -> (text: String)
    ensures
        text@ == register_signed_text(name@, a, value),
{
    let mut text = start_text(name);
    push_register(&mut text, a);
    push_separator(&mut text);
    push_signed_decimal(&mut text, value);
    text
}

fn register_unsigned(name: &str, a: u32, value: u32) -> (text: String)
    ensures
        text@ == register_unsigned_text(name@, a, value),
{
    let mut text = start_text(name);
    push_register(&mut text, a);
    push_separator(&mut text);
    push_decimal(&mut text, value);
    text
}

fn two_registers(name: &str, a: u32, b: u32) -> (text: String)
    ensures
        text@ == two_registers_text(name@, a, b),
{
    let mut text = start_text(name);
    push_register(&mut text, a);
    push_separator(&mut text);
    push_register(&mut text, b);
    text
}

fn one_value(name: &str, value: u32) -> (text: String)
    ensures
        text@ == one_value_text(name@, value),
{
    let mut text = start_text(name);
    push_decimal(&mut text, value);
    text
}

fn one_register(name: &str, a: u32) -> (text: String)
    ensures
        text@ == one_register_text(name@, a),
{
    let mut text = start_text(name);
    push_register(&mut text, a);
    text
}

fn memory_operand(name: &str, rt: u32, offset: i32, base: u32) -> (text: String)
    ensures
        text@ == memory_operand_text(name@, rt, offset, base),
{
    proof {
        reveal_strlit("(");
        reveal_strlit(")");
    }
    let mut text = start_text(name);
    push_register(&mut text, rt);
    push_separator(&mut text);
    push_signed_decimal(&mut text, offset);
    text.append("(");
    push_register(&mut text, base);
    text.append(")");
    assert(text@ =~= memory_operand_text(name@, rt, offset, base));
    text
}

impl Instruction {
    /// Writes the instruction in assembly notation.
    pub fn to_string(&self) -> (text: String)
        ensures
            text@ == self.text(),
    {
        match *self {
            Instruction::Unknown(word) => {
                let mut text = String::new();
                text.append("Unknwown ");
                push_binary(&mut text, word, 32);
                assert(text@ =~= "Unknwown "@ + binary_digits(word as nat, 32));
                text
            },
            Instruction::BREAK => "break".to_string(),
            Instruction::SYSCALL => "syscall".to_string(),
            Instruction::ADD(rs, rt, rd) => three_registers("add", rd, rs, rt),
            Instruction::ADDI(rs, rt, imm) => two_registers_signed("addi", rt, rs, imm),
            Instruction::ADDIU(rs, rt, imm) => two_registers_signed("addiu", rt, rs, imm),
            Instruction::ADDU(rs, rt, rd) => three_registers("addu", rd, rs, rt),
            Instruction::AND(rs, rt, rd) => three_registers("and", rd, rs, rt),
            Instruction::ANDI(rs, rt, imm) => two_registers_unsigned("andi", rt, rs, imm),
            Instruction::BEQ(rs, rt, offset) => two_registers_signed("beq", rs, rt, offset),
            Instruction::BGEZ(rs, offset) => register_signed("bgez", rs, offset),
            Instruction::BGEZAL(rs, offset) => register_signed("bgezal", rs, offset),
            Instruction::BGTZ(rs, offset) => register_signed("bgtz", rs, offset),
            Instruction::BLEZ(rs, offset) => register_signed("blez", rs, offset),
            Instruction::BLTZ(rs, offset) => register_signed("bltz", rs, offset),
            Instruction::BLTZAL(rs, offset) => register_signed("bltzal", rs, offset),
            Instruction::BNE(rs, rt, offset) => two_registers_signed("bne", rs, rt, offset),
            Instruction::DIV(rs, rt) => two_registers("div", rs, rt),
            Instruction::DIVU(rs, rt) => two_registers("divu", rs, rt),
            Instruction::J(index) => one_value("j", index),
            Instruction::JAL(index) => one_value("jal", index),
            Instruction::JALR(rs, rd) => two_registers("jalr", rd, rs),
            Instruction::JR(rs) => one_register("jr", rs),
            Instruction::LB(base, rt, offset) => memory_operand("lb", rt, offset, base),
            Instruction::LBU(base, rt, offset) => memory_operand("lbu", rt, offset, base),
            Instruction::LH(base, rt, offset) => memory_operand("lh", rt, offset, base),
            Instruction::LHU(base, rt, offset) => memory_operand("lhu", rt, offset, base),
            Instruction::LUI(rt, imm) => register_unsigned("lui", rt, imm),
            Instruction::LW(base, rt, offset) => memory_operand("lw", rt, offset, base),
            Instruction::LWL(base, rt, offset) => memory_operand("lwl", rt, offset, base),
            Instruction::LWR(base, rt, offset) => memory_operand("lwr", rt, offset, base),
            Instruction::MFHI(rd) => one_register("mfhi", rd),
            Instruction::MFLO(rd) => one_register("mflo", rd),
            Instruction::MOVN(rs, rt, rd) => three_registers("movn", rd, rs, rt),
            Instruction::MOVZ(rs, rt, rd) => three_registers("movz", rd, rs, rt),
            Instruction::MTHI(rs) => one_register("mthi", rs),
            Instruction::MTLO(rs) => one_register("mtlo", rs),
            Instruction::MUL(rs, rt, rd) => three_registers("mul", rd, rs, rt),
            Instruction::MULT(rs, rt) => two_registers("mult", rs, rt),
            Instruction::MULTU(rs, rt) => two_registers("multu", rs, rt),
            Instruction::NOR(rs, rt, rd) => three_registers("nor", rd, rs, rt),
            Instruction::OR(rs, rt, rd) => three_registers("or", rd, rs, rt),
            Instruction::ORI(rs, rt, imm) => two_registers_unsigned("ori", rt, rs, imm),
            Instruction::SB(base, rt, offset) => memory_operand("sb", rt, offset, base),
            Instruction::SH(base, rt, offset) => memory_operand("sh", rt, offset, base),
            Instruction::SLL(rt, rd, shift) => two_registers_unsigned("sll", rd, rt, shift),
            Instruction::SLLV(rs, rt, rd) => three_registers("sllv", rd, rt, rs),
            Instruction::SLT(rs, rt, rd) => three_registers("slt", rd, rs, rt),
            Instruction::SLTI(rs, rt, imm) => two_registers_signed("slti", rs, rt, imm),
            Instruction::SLTIU(rs, rt, imm) => two_registers_signed("sltiu", rs, rt, imm),
            Instruction::SLTU(rs, rt, rd) => three_registers("sltu", rd, rs, rt),
            Instruction::SRA(rt, rd, shift) => two_registers_unsigned("sra", rd, rt, shift),
            Instruction::SRAV(rs, rt, rd) => three_registers("srav", rd, rt, rs),
            Instruction::SRL(rt, rd, shift) => two_registers_unsigned("srl", rd, rt, shift),
            Instruction::SRLV(rs, rt, rd) => three_registers("srlv", rd, rt, rs),
            Instruction::SUB(rs, rt, rd) => three_registers("sub", rd, rs, rt),
            Instruction::SUBU(rs, rt, rd) => three_registers("subu", rd, rs, rt),
            Instruction::SW(base, rt, offset) => memory_operand("sw", rt, offset, base),
            Instruction::SWL(base, rt, offset) => memory_operand("swl", rt, offset, base),
            Instruction::SWR(base, rt, offset) => memory_operand("swr", rt, offset, base),
            Instruction::TEQ(rs, rt) => two_registers("teq", rs, rt),
            Instruction::XOR(rs, rt, rd) => three_registers("xor", rd, rs, rt),
            Instruction::XORI(rs, rt, imm) => two_registers_unsigned("xori", rt, rs, imm),
        }
    }
}

} // verus!
