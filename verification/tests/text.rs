use mips_emu::instruction::Instruction;
use mips_emu::text::{
    parse_decimal, push_binary, push_decimal, push_hexadecimal, push_signed_decimal,
};

fn decimal(n: u32) -> String {
    let mut text = String::new();
    push_decimal(&mut text, n);
    text
}

fn signed(value: i32) -> String {
    let mut text = String::new();
    push_signed_decimal(&mut text, value);
    text
}

fn hexadecimal(n: u32) -> String {
    let mut text = String::new();
    push_hexadecimal(&mut text, n);
    text
}

fn binary(n: u32, width: u32) -> String {
    let mut text = String::new();
    push_binary(&mut text, n, width);
    text
}

#[test]
fn decimal_numbers() {
    assert_eq!(decimal(0), "0");
    assert_eq!(decimal(7), "7");
    assert_eq!(decimal(10), "10");
    assert_eq!(decimal(1234567890), "1234567890");
    assert_eq!(decimal(u32::MAX), "4294967295");
    for n in [0u32, 9, 99, 100, 101, 65535, 65536, 0x7FFF_FFFF, 0x8000_0000] {
        assert_eq!(decimal(n), format!("{}", n));
    }
}

#[test]
fn signed_decimal_numbers() {
    assert_eq!(signed(0), "0");
    assert_eq!(signed(-1), "-1");
    assert_eq!(signed(i32::MAX), "2147483647");
    assert_eq!(signed(i32::MIN), "-2147483648");
    for v in [5i32, -5, 32767, -32768, 1000000, -1000000] {
        assert_eq!(signed(v), format!("{}", v));
    }
}

#[test]
fn hexadecimal_numbers() {
    assert_eq!(hexadecimal(0), "0x0");
    assert_eq!(hexadecimal(0xF), "0xf");
    assert_eq!(hexadecimal(0x10), "0x10");
    assert_eq!(hexadecimal(0xDEAD_BEEF), "0xdeadbeef");
    for n in [1u32, 0x400, 0x00AB_CDEF, u32::MAX] {
        assert_eq!(hexadecimal(n), format!("{:#x}", n));
    }
}

#[test]
fn binary_numbers_keep_leading_zeros() {
    assert_eq!(binary(0, 32), "00000000000000000000000000000000");
    assert_eq!(binary(5, 32), "00000000000000000000000000000101");
    assert_eq!(binary(u32::MAX, 32), "11111111111111111111111111111111");
    assert_eq!(binary(0b1011, 4), "1011");
    assert_eq!(binary(0b1011, 2), "11");
    assert_eq!(binary(0b1011, 0), "");
    for n in [1u32, 0x8000_0000, 0x1234_5678] {
        assert_eq!(binary(n, 32), format!("{:032b}", n));
    }
}

#[test]
fn appending_keeps_what_was_written() {
    let mut text = String::from("pc=");
    push_hexadecimal(&mut text, 0x40);
    text.push(' ');
    push_decimal(&mut text, 12);
    push_signed_decimal(&mut text, -3);
    push_binary(&mut text, 2, 3);
    assert_eq!(text, "pc=0x40 12-3010");
}

#[test]
fn parses_decimal_integers() {
    assert_eq!(parse_decimal(b"0"), Some(0));
    assert_eq!(parse_decimal(b"-0"), Some(0));
    assert_eq!(parse_decimal(b"+0"), Some(0));
    assert_eq!(parse_decimal(b"007"), Some(7));
    assert_eq!(parse_decimal(b"12345"), Some(12345));
    assert_eq!(parse_decimal(b"-12345"), Some(-12345));
    assert_eq!(parse_decimal(b"+12345"), Some(12345));
    assert_eq!(parse_decimal(b"2147483647"), Some(i32::MAX));
    assert_eq!(parse_decimal(b"-2147483648"), Some(i32::MIN));
    assert_eq!(parse_decimal(b"0000000000000000000001"), Some(1));
}

#[test]
fn white_space_around_the_integer_is_ignored() {
    assert_eq!(parse_decimal(b" 1"), Some(1));
    assert_eq!(parse_decimal(b"1 "), Some(1));
    assert_eq!(parse_decimal(b"\t\n\x0B\x0C\r 15 \r\n"), Some(15));
    assert_eq!(parse_decimal(b"  -3\n"), Some(-3));
}

#[test]
fn rejects_what_is_no_integer() {
    for line in [
        &b""[..],
        b" ",
        b"\n",
        b"-",
        b"+",
        b"+-1",
        b"- 1",
        b"1-",
        b"1 1",
        b"a",
        b"1a",
        b"a1",
        b"1_000",
        b"1.0",
        b"0x1",
        b"2147483648",
        b"+2147483648",
        b"-2147483649",
        b"4294967296",
        b"100000000000000000000",
        b"-100000000000000000000",
        b"\x001",
        b"1\x00",
    ] {
        assert_eq!(parse_decimal(line), None);
    }
}

#[test]
fn parsing_agrees_with_writing() {
    for v in [0i32, 1, -1, 9, 10, -10, 12345, i32::MAX, i32::MIN, -2147483647] {
        assert_eq!(parse_decimal(signed(v).as_bytes()), Some(v));
    }
}

#[test]
fn three_register_instructions_in_words() {
    assert_eq!(Instruction::ADD(1, 2, 3).to_string(), "add $3, $1, $2");
    assert_eq!(Instruction::ADDU(1, 2, 3).to_string(), "addu $3, $1, $2");
    assert_eq!(Instruction::AND(1, 2, 3).to_string(), "and $3, $1, $2");
    assert_eq!(Instruction::NOR(1, 2, 3).to_string(), "nor $3, $1, $2");
    assert_eq!(Instruction::OR(1, 2, 3).to_string(), "or $3, $1, $2");
    assert_eq!(Instruction::SLT(1, 2, 3).to_string(), "slt $3, $1, $2");
    assert_eq!(Instruction::SLTU(1, 2, 3).to_string(), "sltu $3, $1, $2");
    assert_eq!(Instruction::SUB(1, 2, 3).to_string(), "sub $3, $1, $2");
    assert_eq!(Instruction::SUBU(1, 2, 3).to_string(), "subu $3, $1, $2");
    assert_eq!(Instruction::XOR(1, 2, 3).to_string(), "xor $3, $1, $2");
    assert_eq!(Instruction::MUL(1, 2, 3).to_string(), "mul $3, $1, $2");
    assert_eq!(Instruction::MOVN(1, 2, 3).to_string(), "movn $3, $1, $2");
    assert_eq!(Instruction::MOVZ(1, 2, 3).to_string(), "movz $3, $1, $2");
    assert_eq!(Instruction::SLLV(1, 2, 3).to_string(), "sllv $3, $2, $1");
    assert_eq!(Instruction::SRAV(1, 2, 3).to_string(), "srav $3, $2, $1");
    assert_eq!(Instruction::SRLV(1, 2, 3).to_string(), "srlv $3, $2, $1");
    assert_eq!(Instruction::ADD(31, 30, 0).to_string(), "add $0, $31, $30");
}

#[test]
fn immediate_instructions_in_words() {
    assert_eq!(Instruction::ADDI(1, 2, -3).to_string(), "addi $2, $1, -3");
    assert_eq!(Instruction::ADDIU(1, 2, 32767).to_string(), "addiu $2, $1, 32767");
    assert_eq!(Instruction::ANDI(1, 2, 65535).to_string(), "andi $2, $1, 65535");
    assert_eq!(Instruction::ORI(1, 2, 0).to_string(), "ori $2, $1, 0");
    assert_eq!(Instruction::XORI(1, 2, 7).to_string(), "xori $2, $1, 7");
    assert_eq!(Instruction::SLTI(1, 2, -3).to_string(), "slti $1, $2, -3");
    assert_eq!(Instruction::SLTIU(1, 2, 3).to_string(), "sltiu $1, $2, 3");
    assert_eq!(Instruction::LUI(2, 4660).to_string(), "lui $2, 4660");
    assert_eq!(Instruction::SLL(1, 2, 3).to_string(), "sll $2, $1, 3");
    assert_eq!(Instruction::SRA(1, 2, 31).to_string(), "sra $2, $1, 31");
    assert_eq!(Instruction::SRL(1, 2, 0).to_string(), "srl $2, $1, 0");
    assert_eq!(Instruction::SLL(0, 0, 0).to_string(), "sll $0, $0, 0");
}

#[test]
fn branches_and_jumps_in_words() {
    assert_eq!(Instruction::BEQ(1, 2, -3).to_string(), "beq $1, $2, -3");
    assert_eq!(Instruction::BNE(1, 2, 3).to_string(), "bne $1, $2, 3");
    assert_eq!(Instruction::BGEZ(1, 3).to_string(), "bgez $1, 3");
    assert_eq!(Instruction::BGEZAL(1, 3).to_string(), "bgezal $1, 3");
    assert_eq!(Instruction::BGTZ(1, -32768).to_string(), "bgtz $1, -32768");
    assert_eq!(Instruction::BLEZ(1, 3).to_string(), "blez $1, 3");
    assert_eq!(Instruction::BLTZ(1, 3).to_string(), "bltz $1, 3");
    assert_eq!(Instruction::BLTZAL(1, 3).to_string(), "bltzal $1, 3");
    assert_eq!(Instruction::J(1024).to_string(), "j 1024");
    assert_eq!(Instruction::JAL(67108863).to_string(), "jal 67108863");
    assert_eq!(Instruction::JALR(4, 31).to_string(), "jalr $31, $4");
    assert_eq!(Instruction::JR(31).to_string(), "jr $31");
}

#[test]
fn loads_and_stores_in_words() {
    assert_eq!(Instruction::LB(29, 8, -4).to_string(), "lb $8, -4($29)");
    assert_eq!(Instruction::LBU(29, 8, 4).to_string(), "lbu $8, 4($29)");
    assert_eq!(Instruction::LH(29, 8, 0).to_string(), "lh $8, 0($29)");
    assert_eq!(Instruction::LHU(29, 8, 2).to_string(), "lhu $8, 2($29)");
    assert_eq!(Instruction::LW(29, 8, 32764).to_string(), "lw $8, 32764($29)");
    assert_eq!(Instruction::LWL(29, 8, 3).to_string(), "lwl $8, 3($29)");
    assert_eq!(Instruction::LWR(29, 8, 0).to_string(), "lwr $8, 0($29)");
    assert_eq!(Instruction::SB(29, 8, -1).to_string(), "sb $8, -1($29)");
    assert_eq!(Instruction::SH(29, 8, -2).to_string(), "sh $8, -2($29)");
    assert_eq!(Instruction::SW(29, 8, -32768).to_string(), "sw $8, -32768($29)");
    assert_eq!(Instruction::SWL(29, 8, 3).to_string(), "swl $8, 3($29)");
    assert_eq!(Instruction::SWR(29, 8, 0).to_string(), "swr $8, 0($29)");
}

#[test]
fn other_instructions_in_words() {
    assert_eq!(Instruction::DIV(1, 2).to_string(), "div $1, $2");
    assert_eq!(Instruction::DIVU(1, 2).to_string(), "divu $1, $2");
    assert_eq!(Instruction::MULT(1, 2).to_string(), "mult $1, $2");
    assert_eq!(Instruction::MULTU(1, 2).to_string(), "multu $1, $2");
    assert_eq!(Instruction::TEQ(1, 2).to_string(), "teq $1, $2");
    assert_eq!(Instruction::MFHI(9).to_string(), "mfhi $9");
    assert_eq!(Instruction::MFLO(9).to_string(), "mflo $9");
    assert_eq!(Instruction::MTHI(9).to_string(), "mthi $9");
    assert_eq!(Instruction::MTLO(9).to_string(), "mtlo $9");
    assert_eq!(Instruction::SYSCALL.to_string(), "syscall");
    assert_eq!(Instruction::BREAK.to_string(), "break");
    assert_eq!(
        Instruction::Unknown(0xFC00_0001).to_string(),
        "Unknwown 11111100000000000000000000000001"
    );
    assert_eq!(
        Instruction::Unknown(0).to_string(),
        "Unknwown 00000000000000000000000000000000"
    );
}
