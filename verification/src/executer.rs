//! The semantics of the instructions: what one instruction does to the
//! registers and the memory, and how the program counter moves after it.

use crate::cpu::{Cpu, CpuView, Fault, PCOperation, Signal, TrapReason};
use crate::instruction::Instruction;
use crate::memory::{
    address_space, half_word_at, lemma_word_at_bytes, store_half_word, store_word, word_at, word_byte,
};
use crate::syscall::{call_syscall, syscall_spec};
use crate::utils::{checked_offset_addr, i2u, signed, u2i, wrap32};
use vstd::prelude::*;

verus! {

/// What one instruction does: the state after it, and either the move of the
/// program counter or the signal that it raises.
pub struct Effect {
    pub state: CpuView,
    pub outcome: Result<PCOperation, Signal>,
}

/// Execution goes on with the instruction after the delay slot.
pub open spec fn proceed(state: CpuView) -> Effect {
    Effect { state, outcome: Ok(PCOperation::Offset(4)) }
}

/// A conditional branch: by `offset` instructions from the delay slot if it
/// is taken, to the instruction after the delay slot if it is not.
pub open spec fn branch(state: CpuView, taken: bool, offset: i32) -> Effect {
    Effect {
        state,
        outcome: Ok(
            PCOperation::Offset(
                if taken {
                    (offset * 4) as i32
                } else {
                    4
                },
            ),
        ),
    }
}

/// The instruction raises a signal.
pub open spec fn stop(state: CpuView, signal: Signal) -> Effect {
    Effect { state, outcome: Err(signal) }
}

pub open spec fn fits_i32(value: int) -> bool {
    -0x8000_0000 <= value < 0x8000_0000
}

/// Signed arithmetic that traps: the result is written if it fits in 32
/// bits; otherwise nothing is written and the instruction traps.
pub open spec fn write_or_trap(s: CpuView, value: int, dest: u32, reason: TrapReason) -> Effect {
    if fits_i32(value) {
        proceed(s.set_reg(dest, wrap32(value)))
    } else {
        stop(s, Signal::Trap(reason))
    }
}

pub open spec fn is_address(addr: int) -> bool {
    0 <= addr < address_space()
}

/// The byte, sign-extended to a word.
pub open spec fn sign_extend_byte(byte: u8) -> u32 {
    wrap32(
        if byte < 0x80 {
            byte as int
        } else {
            byte - 0x100
        },
    )
}

/// The half-word, sign-extended to a word.
pub open spec fn sign_extend_half_word(half: u16) -> u32 {
    wrap32(
        if half < 0x8000 {
            half as int
        } else {
            half - 0x1_0000
        },
    )
}

/// The quotient of a signed division, rounded toward zero.
pub open spec fn quotient_toward_zero(a: int, b: int) -> int {
    if a == 0 {
        0
    } else if a > 0 && b > 0 {
        a / b
    } else if a < 0 && b < 0 {
        (-a) / (-b)
    } else if a < 0 {
        -((-a) / b)
    } else {
        -(a / (-b))
    }
}

/// The remainder of a signed division whose quotient is rounded toward zero:
/// it has the sign of the dividend.
pub open spec fn remainder_toward_zero(a: int, b: int) -> int {
    if a == 0 {
        0
    } else if a > 0 && b > 0 {
        a % b
    } else if a < 0 && b < 0 {
        -((-a) % (-b))
    } else if a < 0 {
        -((-a) % b)
    } else {
        a % (-b)
    }
}

/// The signed reading of `x`, shifted right with copies of its sign bit.
pub open spec fn shift_right_arithmetic(x: u32, shift: u32) -> u32 {
    wrap32(((signed(x) as i32) >> shift) as int)
}

/// The word whose bytes are these, `b0` being the least significant.
pub open spec fn word_of_bytes(b0: u8, b1: u8, b2: u8, b3: u8) -> u32 {
    (b0 + 0x100 * b1 + 0x1_0000 * b2 + 0x100_0000 * b3) as u32
}

/// Load-word-left at `addr`: the bytes of memory from the start of the
/// aligned word that holds `addr` up to `addr` become the most significant
/// bytes of the register, the byte at `addr` the topmost.  The other bytes
/// of the register stay.
pub open spec fn load_left(mem: Map<int, u8>, addr: int, reg: u32) -> u32 {
    let k = addr % 4;
    word_of_bytes(
        if k >= 3 {
            mem[addr - 3]
        } else {
            word_byte(reg, 0)
        },
        if k >= 2 {
            mem[addr - 2]
        } else {
            word_byte(reg, 1)
        },
        if k >= 1 {
            mem[addr - 1]
        } else {
            word_byte(reg, 2)
        },
        mem[addr],
    )
}

/// Load-word-right at `addr`: the bytes of memory from `addr` up to the end
/// of the aligned word that holds `addr` become the least significant bytes
/// of the register, the byte at `addr` the lowest.  The other bytes of the
/// register stay.
pub open spec fn load_right(mem: Map<int, u8>, addr: int, reg: u32) -> u32 {
    let k = addr % 4;
    word_of_bytes(
        mem[addr],
        if k <= 2 {
            mem[addr + 1]
        } else {
            word_byte(reg, 1)
        },
        if k <= 1 {
            mem[addr + 2]
        } else {
            word_byte(reg, 2)
        },
        if k == 0 {
            mem[addr + 3]
        } else {
            word_byte(reg, 3)
        },
    )
}

/// Store-word-left at `addr`: the most significant bytes of the register are
/// stored from the start of the aligned word that holds `addr` up to `addr`,
/// the topmost at `addr`.  The rest of memory stays.
pub open spec fn store_left(mem: Map<int, u8>, addr: int, reg: u32) -> Map<int, u8> {
    let k = addr % 4;
    let m3 = mem.insert(addr, word_byte(reg, 3));
    let m2 = if k >= 1 {
        m3.insert(addr - 1, word_byte(reg, 2))
    } else {
        m3
    };
    let m1 = if k >= 2 {
        m2.insert(addr - 2, word_byte(reg, 1))
    } else {
        m2
    };
    if k >= 3 {
        m1.insert(addr - 3, word_byte(reg, 0))
    } else {
        m1
    }
}

/// Store-word-right at `addr`: the least significant bytes of the register
/// are stored from `addr` up to the end of the aligned word that holds
/// `addr`, the lowest at `addr`.  The rest of memory stays.
pub open spec fn store_right(mem: Map<int, u8>, addr: int, reg: u32) -> Map<int, u8> {
    let k = addr % 4;
    let m0 = mem.insert(addr, word_byte(reg, 0));
    let m1 = if k <= 2 {
        m0.insert(addr + 1, word_byte(reg, 1))
    } else {
        m0
    };
    let m2 = if k <= 1 {
        m1.insert(addr + 2, word_byte(reg, 2))
    } else {
        m1
    };
    if k == 0 {
        m2.insert(addr + 3, word_byte(reg, 3))
    } else {
        m2
    }
}

/// The state in which `dest` holds the return address, the address after the
/// delay slot, or nothing where that is no address.
pub open spec fn link(s: CpuView, dest: u32) -> Option<CpuView> {
    if is_address(s.pc + 8) {
        Some(s.set_reg(dest, (s.pc + 8) as u32))
    } else {
        None
    }
}

/// What a load does: `value` computes the register from the memory and the
/// address.  A word or half-word has to be aligned.
pub open spec fn load_effect(
    s: CpuView,
    base: u32,
    rt: u32,
    offset: i32,
    width: int,
    value: spec_fn(Map<int, u8>, int) -> u32,
) -> Effect {
    let addr = s.reg(base) + offset;
    if !is_address(addr) {
        stop(s, Signal::Fault(Fault::AddressOverflow))
    } else if addr % width != 0 {
        stop(
            s,
            Signal::Trap(
                if width == 4 {
                    TrapReason::UnalignedWord
                } else {
                    TrapReason::UnalignedHalfWord
                },
            ),
        )
    } else {
        proceed(s.set_reg(rt, value(s.mem, addr)))
    }
}

/// What a store does: `stored` computes the memory from the memory before
/// and the address.  A word or half-word has to be aligned.
pub open spec fn store_effect(
    s: CpuView,
    base: u32,
    offset: i32,
    width: int,
    stored: spec_fn(Map<int, u8>, int) -> Map<int, u8>,
) -> Effect {
    let addr = s.reg(base) + offset;
    if !is_address(addr) {
        stop(s, Signal::Fault(Fault::AddressOverflow))
    } else if addr % width != 0 {
        stop(
            s,
            Signal::Trap(
                if width == 4 {
                    TrapReason::UnalignedWord
                } else {
                    TrapReason::UnalignedHalfWord
                },
            ),
        )
    } else {
        proceed(s.set_mem(stored(s.mem, addr)))
    }
}

/// The semantics of every instruction.
pub open spec fn apply_spec(inst: Instruction, s: CpuView) -> Effect {
    match inst {
        Instruction::Unknown(word) => stop(s, Signal::Fault(Fault::UnknownInstruction(word))),
        Instruction::ADD(rs, rt, rd) => write_or_trap(
            s,
            signed(s.reg(rs)) + signed(s.reg(rt)),
            rd,
            TrapReason::AddOverflow,
        ),
        Instruction::ADDI(rs, rt, imm) => write_or_trap(
            s,
            signed(s.reg(rs)) + imm,
            rt,
            TrapReason::AddOverflow,
        ),
        Instruction::ADDIU(rs, rt, imm) => proceed(s.set_reg(rt, wrap32(s.reg(rs) + imm))),
        Instruction::ADDU(rs, rt, rd) => proceed(s.set_reg(rd, wrap32(s.reg(rs) + s.reg(rt)))),
        Instruction::AND(rs, rt, rd) => proceed(s.set_reg(rd, s.reg(rs) & s.reg(rt))),
        Instruction::ANDI(rs, rt, imm) => proceed(s.set_reg(rt, s.reg(rs) & imm)),
        Instruction::BEQ(rs, rt, offset) => branch(s, s.reg(rs) == s.reg(rt), offset),
        Instruction::BGEZ(rs, offset) => branch(s, signed(s.reg(rs)) >= 0, offset),
        Instruction::BGEZAL(rs, offset) => match link(s, 31) {
            Some(linked) => branch(linked, signed(linked.reg(rs)) >= 0, offset),
            None => stop(s, Signal::Fault(Fault::AddressOverflow)),
        },
        Instruction::BGTZ(rs, offset) => branch(s, signed(s.reg(rs)) > 0, offset),
        Instruction::BLEZ(rs, offset) => branch(s, signed(s.reg(rs)) <= 0, offset),
        Instruction::BLTZ(rs, offset) => branch(s, signed(s.reg(rs)) < 0, offset),
        Instruction::BLTZAL(rs, offset) => match link(s, 31) {
            Some(linked) => branch(linked, signed(linked.reg(rs)) < 0, offset),
            None => stop(s, Signal::Fault(Fault::AddressOverflow)),
        },
        Instruction::BNE(rs, rt, offset) => branch(s, s.reg(rs) != s.reg(rt), offset),
        Instruction::BREAK => stop(s, Signal::Breakpoint(s.pc)),
        Instruction::DIV(rs, rt) => {
            let a = signed(s.reg(rs));
            let b = signed(s.reg(rt));
            if b == 0 {
                stop(s, Signal::Fault(Fault::DivisionByZero))
            } else if a == -0x8000_0000 && b == -1 {
                stop(s, Signal::Fault(Fault::DivisionOverflow))
            } else {
                proceed(
                    s.set_hi_lo(
                        wrap32(remainder_toward_zero(a, b)),
                        wrap32(quotient_toward_zero(a, b)),
                    ),
                )
            }
        },
        Instruction::DIVU(rs, rt) => if s.reg(rt) == 0 {
            stop(s, Signal::Fault(Fault::DivisionByZero))
        } else {
            proceed(s.set_hi_lo(s.reg(rs) % s.reg(rt), s.reg(rs) / s.reg(rt)))
        },
        Instruction::J(index) => Effect { state: s, outcome: Ok(PCOperation::JumpCompute(index)) },
        Instruction::JAL(index) => match link(s, 31) {
            Some(linked) => Effect {
                state: linked,
                outcome: Ok(PCOperation::JumpCompute(index)),
            },
            None => stop(s, Signal::Fault(Fault::AddressOverflow)),
        },
        Instruction::JALR(rs, rd) => match link(s, rd) {
            Some(linked) => Effect {
                state: linked,
                outcome: Ok(PCOperation::JumpReal(linked.reg(rs))),
            },
            None => stop(s, Signal::Fault(Fault::AddressOverflow)),
        },
        Instruction::JR(rs) => Effect { state: s, outcome: Ok(PCOperation::JumpReal(s.reg(rs))) },
        Instruction::LB(base, rt, offset) => load_effect(
            s,
            base,
            rt,
            offset,
            1,
            |mem: Map<int, u8>, addr: int| sign_extend_byte(mem[addr]),
        ),
        Instruction::LBU(base, rt, offset) => load_effect(
            s,
            base,
            rt,
            offset,
            1,
            |mem: Map<int, u8>, addr: int| mem[addr] as u32,
        ),
        Instruction::LH(base, rt, offset) => load_effect(
            s,
            base,
            rt,
            offset,
            2,
            |mem: Map<int, u8>, addr: int| sign_extend_half_word(half_word_at(mem, addr)),
        ),
        Instruction::LHU(base, rt, offset) => load_effect(
            s,
            base,
            rt,
            offset,
            2,
            |mem: Map<int, u8>, addr: int| half_word_at(mem, addr) as u32,
        ),
        Instruction::LUI(rt, imm) => proceed(s.set_reg(rt, wrap32(imm * 0x1_0000))),
        Instruction::LW(base, rt, offset) => load_effect(
            s,
            base,
            rt,
            offset,
            4,
            |mem: Map<int, u8>, addr: int| word_at(mem, addr),
        ),
        Instruction::LWL(base, rt, offset) => load_effect(
            s,
            base,
            rt,
            offset,
            1,
            |mem: Map<int, u8>, addr: int| load_left(mem, addr, s.reg(rt)),
        ),
        Instruction::LWR(base, rt, offset) => load_effect(
            s,
            base,
            rt,
            offset,
            1,
            |mem: Map<int, u8>, addr: int| load_right(mem, addr, s.reg(rt)),
        ),
        Instruction::MFHI(rd) => proceed(s.set_reg(rd, s.hi)),
        Instruction::MFLO(rd) => proceed(s.set_reg(rd, s.lo)),
        Instruction::MOVN(rs, rt, rd) => proceed(
            if s.reg(rt) != 0 {
                s.set_reg(rd, s.reg(rs))
            } else {
                s
            },
        ),
        Instruction::MOVZ(rs, rt, rd) => proceed(
            if s.reg(rt) == 0 {
                s.set_reg(rd, s.reg(rs))
            } else {
                s
            },
        ),
        Instruction::MTHI(rs) => proceed(s.set_hi_lo(s.reg(rs), s.lo)),
        Instruction::MTLO(rs) => proceed(s.set_hi_lo(s.hi, s.reg(rs))),
        Instruction::MUL(rs, rt, rd) => proceed(
            s.set_reg(rd, wrap32(signed(s.reg(rs)) * signed(s.reg(rt)))),
        ),
        Instruction::MULT(rs, rt) => {
            let product = signed(s.reg(rs)) * signed(s.reg(rt));
            proceed(s.set_hi_lo(wrap32(product / 0x1_0000_0000), wrap32(product)))
        },
        Instruction::MULTU(rs, rt) => {
            let product = s.reg(rs) * s.reg(rt);
            proceed(s.set_hi_lo(wrap32(product / 0x1_0000_0000), wrap32(product)))
        },
        Instruction::NOR(rs, rt, rd) => proceed(s.set_reg(rd, !(s.reg(rs) | s.reg(rt)))),
        Instruction::OR(rs, rt, rd) => proceed(s.set_reg(rd, s.reg(rs) | s.reg(rt))),
        Instruction::ORI(rs, rt, imm) => proceed(s.set_reg(rt, s.reg(rs) | imm)),
        Instruction::SB(base, rt, offset) => store_effect(
            s,
            base,
            offset,
            1,
            |mem: Map<int, u8>, addr: int| mem.insert(addr, word_byte(s.reg(rt), 0)),
        ),
        Instruction::SH(base, rt, offset) => store_effect(
            s,
            base,
            offset,
            2,
            |mem: Map<int, u8>, addr: int|
                store_half_word(mem, addr, (s.reg(rt) % 0x1_0000) as u16),
        ),
        Instruction::SLL(rt, rd, shift) => proceed(s.set_reg(rd, s.reg(rt) << shift)),
        Instruction::SLLV(rs, rt, rd) => proceed(s.set_reg(rd, s.reg(rt) << (s.reg(rs) % 32))),
        Instruction::SLT(rs, rt, rd) => proceed(
            s.set_reg(
                rd,
                if signed(s.reg(rs)) < signed(s.reg(rt)) {
                    1
                } else {
                    0
                },
            ),
        ),
        Instruction::SLTU(rs, rt, rd) => proceed(
            s.set_reg(
                rd,
                if s.reg(rs) < s.reg(rt) {
                    1
                } else {
                    0
                },
            ),
        ),
        Instruction::SLTI(rs, rt, imm) => proceed(
            s.set_reg(
                rt,
                if signed(s.reg(rs)) < imm {
                    1
                } else {
                    0
                },
            ),
        ),
        Instruction::SLTIU(rs, rt, imm) => proceed(
            s.set_reg(
                rt,
                if s.reg(rs) < wrap32(imm as int) {
                    1
                } else {
                    0
                },
            ),
        ),
        Instruction::SRA(rt, rd, shift) => proceed(
            s.set_reg(rd, shift_right_arithmetic(s.reg(rt), shift)),
        ),
        Instruction::SRAV(rs, rt, rd) => proceed(
            s.set_reg(rd, shift_right_arithmetic(s.reg(rt), s.reg(rs) % 32)),
        ),
        Instruction::SRL(rt, rd, shift) => proceed(s.set_reg(rd, s.reg(rt) >> shift)),
        Instruction::SRLV(rs, rt, rd) => proceed(s.set_reg(rd, s.reg(rt) >> (s.reg(rs) % 32))),
        Instruction::SUB(rs, rt, rd) => write_or_trap(
            s,
            signed(s.reg(rs)) - signed(s.reg(rt)),
            rd,
            TrapReason::SubOverflow,
        ),
        Instruction::SUBU(rs, rt, rd) => proceed(s.set_reg(rd, wrap32(s.reg(rs) - s.reg(rt)))),
        Instruction::SW(base, rt, offset) => store_effect(
            s,
            base,
            offset,
            4,
            |mem: Map<int, u8>, addr: int| store_word(mem, addr, s.reg(rt)),
        ),
        Instruction::SWL(base, rt, offset) => store_effect(
            s,
            base,
            offset,
            1,
            |mem: Map<int, u8>, addr: int| store_left(mem, addr, s.reg(rt)),
        ),
        Instruction::SWR(base, rt, offset) => store_effect(
            s,
            base,
            offset,
            1,
            |mem: Map<int, u8>, addr: int| store_right(mem, addr, s.reg(rt)),
        ),
        Instruction::SYSCALL => stop(s, syscall_spec(s)),
        Instruction::TEQ(rs, rt) => if s.reg(rs) == s.reg(rt) {
            stop(s, Signal::Trap(TrapReason::TrapOnEqual))
        } else {
            proceed(s)
        },
        Instruction::XOR(rs, rt, rd) => proceed(s.set_reg(rd, s.reg(rs) ^ s.reg(rt))),
        Instruction::XORI(rs, rt, imm) => proceed(s.set_reg(rt, s.reg(rs) ^ imm)),
    }
}

/// Whether `after` and `outcome` are what `inst` makes of the state `before`.
pub open spec fn applied(
    inst: Instruction,
    before: CpuView,
    after: CpuView,
    outcome: Result<PCOperation, Signal>,
) -> bool {
    &&& after == apply_spec(inst, before).state
    &&& outcome == apply_spec(inst, before).outcome
}

/// Masks and truncating casts select the same bits as remainders do.
proof fn lemma_low_bits(word: u32)
    by (bit_vector)
    ensures
        (word & 0b11) == word % 4,
        (word & 0b1) == word % 2,
        ((word << 27) >> 27) == word % 32,
        (word as u8) as u32 == word % 0x100,
        (word as u16) as u32 == word % 0x1_0000,
        word < 0x1_0000 ==> (word << 16) == word * 0x1_0000,
{
}

/// The address that an offset from a base register leads to, if it is one.
fn effective_address(cpu: &Cpu, base: u32, offset: i32) -> (addr: Option<u32>)
    requires
        base < 32,
    ensures
        is_address(cpu@.reg(base) + offset) ==> addr == Some((cpu@.reg(base) + offset) as u32),
        !is_address(cpu@.reg(base) + offset) ==> addr is None,
{
    checked_offset_addr(cpu.get_register(base), offset)
}

/// Writes the return address, the address after the delay slot, to `dest`.
/// Where that is no address, nothing is written.
fn link_register(cpu: &mut Cpu, dest: u32) -> (linked: bool)
    requires
        dest < 32,
    ensures
        linked == link(old(cpu)@, dest).is_some(),
        linked ==> final(cpu)@ == link(old(cpu)@, dest).unwrap(),
        !linked ==> final(cpu)@ == old(cpu)@,
{
    let pc = cpu.pc;
    if pc <= u32::MAX - 8 {
        cpu.set_register(dest, pc + 8);
        true
    } else {
        false
    }
}

/// The move of the program counter after a conditional branch.
fn branch_to(taken: bool, offset: i32) -> (op: PCOperation)
    requires
        -0x8000 <= offset < 0x8000,
    ensures
        op == PCOperation::Offset(
            if taken {
                (offset * 4) as i32
            } else {
                4
            },
        ),
{
    if taken {
        PCOperation::Offset(offset * 4)
    } else {
        PCOperation::Offset(4)
    }
}

/// Sign-extends a byte to a word.
fn extend_byte(byte: u8) -> (value: u32)
    ensures
        value == sign_extend_byte(byte),
{
    let value = #[verifier::truncate] (((#[verifier::truncate] (byte as i8)) as i32) as u32);
    assert(value as int == if byte < 0x80u8 {
        byte as int
    } else {
        byte as int + 0xFFFF_FF00
    }) by (bit_vector)
        requires
            value == ((byte as i8) as i32) as u32,
    ;
    value
}

/// Sign-extends a half-word to a word.
fn extend_half_word(half: u16) -> (value: u32)
    ensures
        value == sign_extend_half_word(half),
{
    let value = #[verifier::truncate] (((#[verifier::truncate] (half as i16)) as i32) as u32);
    assert(value as int == if half < 0x8000u16 {
        half as int
    } else {
        half as int + 0xFFFF_0000
    }) by (bit_vector)
        requires
            value == ((half as i16) as i32) as u32,
    ;
    value
}

/// Shifts the signed reading of `x` right.
fn arithmetic_shift(x: u32, shift: u32) -> (value: u32)
    requires
        shift < 32,
    ensures
        value == shift_right_arithmetic(x, shift),
{
    i2u(u2i(x) >> shift)
}

/// A load of one byte, sign-extended or zero-extended.
fn load_byte(cpu: &mut Cpu, base: u32, rt: u32, offset: i32, sign: bool) -> (outcome: Result<
    PCOperation,
    Signal,
>)
    requires
        base < 32,
        rt < 32,
    ensures
        sign ==> applied(Instruction::LB(base, rt, offset), old(cpu)@, final(cpu)@, outcome),
        !sign ==> applied(Instruction::LBU(base, rt, offset), old(cpu)@, final(cpu)@, outcome),
{
    match effective_address(cpu, base, offset) {
        None => Err(Signal::Fault(Fault::AddressOverflow)),
        Some(addr) => {
            let byte = cpu.memory.get_byte(addr);
            let value = if sign {
                extend_byte(byte)
            } else {
                byte as u32
            };
            cpu.set_register(rt, value);
            Ok(PCOperation::Offset(4))
        },
    }
}

/// A load of one aligned half-word, sign-extended or zero-extended.
fn load_half_word(cpu: &mut Cpu, base: u32, rt: u32, offset: i32, sign: bool) -> (outcome:
    Result<PCOperation, Signal>)
    requires
        base < 32,
        rt < 32,
    ensures
        sign ==> applied(Instruction::LH(base, rt, offset), old(cpu)@, final(cpu)@, outcome),
        !sign ==> applied(Instruction::LHU(base, rt, offset), old(cpu)@, final(cpu)@, outcome),
{
    match effective_address(cpu, base, offset) {
        None => Err(Signal::Fault(Fault::AddressOverflow)),
        Some(addr) => {
            proof {
                lemma_low_bits(addr);
            }
            if (addr & 0b1) != 0 {
                return Err(Signal::Trap(TrapReason::UnalignedHalfWord));
            }
            let half = cpu.memory.get_half_word(addr);
            let value = if sign {
                extend_half_word(half)
            } else {
                half as u32
            };
            cpu.set_register(rt, value);
            Ok(PCOperation::Offset(4))
        },
    }
}

/// A load of one aligned word.
fn load_word(cpu: &mut Cpu, base: u32, rt: u32, offset: i32) -> (outcome: Result<
    PCOperation,
    Signal,
>)
    requires
        base < 32,
        rt < 32,
    ensures
        applied(Instruction::LW(base, rt, offset), old(cpu)@, final(cpu)@, outcome),
{
    match effective_address(cpu, base, offset) {
        None => Err(Signal::Fault(Fault::AddressOverflow)),
        Some(addr) => {
            proof {
                lemma_low_bits(addr);
            }
            if (addr & 0b11) != 0 {
                return Err(Signal::Trap(TrapReason::UnalignedWord));
            }
            let word = cpu.memory.get_word(addr);
            cpu.set_register(rt, word);
            Ok(PCOperation::Offset(4))
        },
    }
}

/// A store of the low byte of a register.
fn store_byte(cpu: &mut Cpu, base: u32, rt: u32, offset: i32) -> (outcome: Result<
    PCOperation,
    Signal,
>)
    requires
        base < 32,
        rt < 32,
    ensures
        applied(Instruction::SB(base, rt, offset), old(cpu)@, final(cpu)@, outcome),
{
    let word = cpu.get_register(rt);
    proof {
        lemma_low_bits(word);
    }
    let byte = #[verifier::truncate] (word as u8);
    match effective_address(cpu, base, offset) {
        None => Err(Signal::Fault(Fault::AddressOverflow)),
        Some(addr) => {
            cpu.memory.set_byte(addr, byte);
            Ok(PCOperation::Offset(4))
        },
    }
}

/// A store of the low half-word of a register, at an aligned address.
fn store_half(cpu: &mut Cpu, base: u32, rt: u32, offset: i32) -> (outcome: Result<
    PCOperation,
    Signal,
>)
    requires
        base < 32,
        rt < 32,
    ensures
        applied(Instruction::SH(base, rt, offset), old(cpu)@, final(cpu)@, outcome),
{
    let word = cpu.get_register(rt);
    proof {
        lemma_low_bits(word);
    }
    let half = #[verifier::truncate] (word as u16);
    match effective_address(cpu, base, offset) {
        None => Err(Signal::Fault(Fault::AddressOverflow)),
        Some(addr) => {
            proof {
                lemma_low_bits(addr);
            }
            if (addr & 0b1) != 0 {
                return Err(Signal::Trap(TrapReason::UnalignedHalfWord));
            }
            cpu.memory.set_half_word(addr, half);
            Ok(PCOperation::Offset(4))
        },
    }
}

/// A store of a register at an aligned address.
fn store_full_word(cpu: &mut Cpu, base: u32, rt: u32, offset: i32) -> (outcome: Result<
    PCOperation,
    Signal,
>)
    requires
        base < 32,
        rt < 32,
    ensures
        applied(Instruction::SW(base, rt, offset), old(cpu)@, final(cpu)@, outcome),
{
    match effective_address(cpu, base, offset) {
        None => Err(Signal::Fault(Fault::AddressOverflow)),
        Some(addr) => {
            proof {
                lemma_low_bits(addr);
            }
            if (addr & 0b11) != 0 {
                return Err(Signal::Trap(TrapReason::UnalignedWord));
            }
            let word = cpu.get_register(rt);
            cpu.memory.set_word(addr, word);
            Ok(PCOperation::Offset(4))
        },
    }
}

/// Load-word-left merges, for each position in the aligned word: the bytes
/// of the merged word are low bytes of the register below bytes of the
/// memory word.
proof fn lemma_merge_load_left(word: u32, reg: u32)
    by (bit_vector)
    ensures
        (word << 24) | (reg & (0xFFFF_FFFFu32 >> 8)) == reg % 256 + 0x100 * (reg / 0x100 % 256)
            + 0x1_0000 * (reg / 0x1_0000 % 256) + 0x100_0000 * (word % 256),
        (word << 16) | (reg & (0xFFFF_FFFFu32 >> 16)) == reg % 256 + 0x100 * (reg / 0x100 % 256)
            + 0x1_0000 * (word % 256) + 0x100_0000 * (word / 0x100 % 256),
        (word << 8) | (reg & (0xFFFF_FFFFu32 >> 24)) == reg % 256 + 0x100 * (word % 256)
            + 0x1_0000 * (word / 0x100 % 256) + 0x100_0000 * (word / 0x1_0000 % 256),
        (word << 0) | 0 == word % 256 + 0x100 * (word / 0x100 % 256) + 0x1_0000 * (word / 0x1_0000
            % 256) + 0x100_0000 * (word / 0x100_0000 % 256),
{
}

/// Load-word-right merges, for each position in the aligned word: the bytes
/// of the merged word are high bytes of the memory word below bytes of the
/// register.
proof fn lemma_merge_load_right(word: u32, reg: u32)
    by (bit_vector)
    ensures
        (word >> 0) | 0 == word % 256 + 0x100 * (word / 0x100 % 256) + 0x1_0000 * (word / 0x1_0000
            % 256) + 0x100_0000 * (word / 0x100_0000 % 256),
        (word >> 8) | (reg & (0xFFFF_FFFFu32 << 24)) == word / 0x100 % 256 + 0x100 * (word
            / 0x1_0000 % 256) + 0x1_0000 * (word / 0x100_0000 % 256) + 0x100_0000 * (reg
            / 0x100_0000 % 256),
        (word >> 16) | (reg & (0xFFFF_FFFFu32 << 16)) == word / 0x1_0000 % 256 + 0x100 * (word
            / 0x100_0000 % 256) + 0x1_0000 * (reg / 0x1_0000 % 256) + 0x100_0000 * (reg
            / 0x100_0000 % 256),
        (word >> 24) | (reg & (0xFFFF_FFFFu32 << 8)) == word / 0x100_0000 % 256 + 0x100 * (reg
            / 0x100 % 256) + 0x1_0000 * (reg / 0x1_0000 % 256) + 0x100_0000 * (reg / 0x100_0000
            % 256),
{
}

/// Load-word-left: merges bytes of the aligned word that holds the address
/// into the high end of the register.
fn load_word_left(cpu: &mut Cpu, base: u32, rt: u32, offset: i32) -> (outcome: Result<
    PCOperation,
    Signal,
>)
    requires
        base < 32,
        rt < 32,
    ensures
        applied(Instruction::LWL(base, rt, offset), old(cpu)@, final(cpu)@, outcome),
{
    let rt_value = cpu.get_register(rt);
    match effective_address(cpu, base, offset) {
        None => Err(Signal::Fault(Fault::AddressOverflow)),
        Some(addr) => {
            let unaligned_offset = addr & 0b11;
            proof {
                lemma_low_bits(addr);
            }
            let word = cpu.memory.get_word(addr - unaligned_offset);
            let mem_part = word << (8 * (3 - unaligned_offset));
            let reg_part = if unaligned_offset != 3 {
                rt_value & (0xFFFF_FFFFu32 >> (8 * (unaligned_offset + 1)))
            } else {
                0
            };
            let result = mem_part | reg_part;
            proof {
                lemma_merge_load_left(word, rt_value);
                lemma_word_at_bytes(cpu@.mem, addr - unaligned_offset);
            }
            cpu.set_register(rt, result);
            Ok(PCOperation::Offset(4))
        },
    }
}

/// Load-word-right: merges bytes of the aligned word that holds the address
/// into the low end of the register.
fn load_word_right(cpu: &mut Cpu, base: u32, rt: u32, offset: i32) -> (outcome: Result<
    PCOperation,
    Signal,
>)
    requires
        base < 32,
        rt < 32,
    ensures
        applied(Instruction::LWR(base, rt, offset), old(cpu)@, final(cpu)@, outcome),
{
    let rt_value = cpu.get_register(rt);
    match effective_address(cpu, base, offset) {
        None => Err(Signal::Fault(Fault::AddressOverflow)),
        Some(addr) => {
            let unaligned_offset = addr & 0b11;
            proof {
                lemma_low_bits(addr);
            }
            let word = cpu.memory.get_word(addr - unaligned_offset);
            let mem_part = word >> (8 * unaligned_offset);
            let reg_part = if unaligned_offset != 0 {
                rt_value & (0xFFFF_FFFFu32 << (8 * (4 - unaligned_offset)))
            } else {
                0
            };
            let result = mem_part | reg_part;
            proof {
                lemma_merge_load_right(word, rt_value);
                lemma_word_at_bytes(cpu@.mem, addr - unaligned_offset);
            }
            cpu.set_register(rt, result);
            Ok(PCOperation::Offset(4))
        },
    }
}

/// Store-word-left merges, for each position in the aligned word: the low
/// bytes of the merged word are the high bytes of the register, the others
/// are those of the memory word.
proof fn lemma_merge_store_left(word: u32, reg: u32)
    by (bit_vector)
    ensures
        ({
            let merged = (word & (0xFFFF_FFFFu32 << 8)) | (reg >> 24);
            &&& merged % 256 == reg / 0x100_0000 % 256
            &&& merged / 0x100 % 256 == word / 0x100 % 256
            &&& merged / 0x1_0000 % 256 == word / 0x1_0000 % 256
            &&& merged / 0x100_0000 % 256 == word / 0x100_0000 % 256
        }),
        ({
            let merged = (word & (0xFFFF_FFFFu32 << 16)) | (reg >> 16);
            &&& merged % 256 == reg / 0x1_0000 % 256
            &&& merged / 0x100 % 256 == reg / 0x100_0000 % 256
            &&& merged / 0x1_0000 % 256 == word / 0x1_0000 % 256
            &&& merged / 0x100_0000 % 256 == word / 0x100_0000 % 256
        }),
        ({
            let merged = (word & (0xFFFF_FFFFu32 << 24)) | (reg >> 8);
            &&& merged % 256 == reg / 0x100 % 256
            &&& merged / 0x100 % 256 == reg / 0x1_0000 % 256
            &&& merged / 0x1_0000 % 256 == reg / 0x100_0000 % 256
            &&& merged / 0x100_0000 % 256 == word / 0x100_0000 % 256
        }),
        0 | (reg >> 0) == reg,
{
}

/// Store-word-right merges, for each position in the aligned word: the high
/// bytes of the merged word are the low bytes of the register, the others
/// are those of the memory word.
proof fn lemma_merge_store_right(word: u32, reg: u32)
    by (bit_vector)
    ensures
        0 | (reg << 0) == reg,
        ({
            let merged = (word & (0xFFFF_FFFFu32 >> 24)) | (reg << 8);
            &&& merged % 256 == word % 256
            &&& merged / 0x100 % 256 == reg % 256
            &&& merged / 0x1_0000 % 256 == reg / 0x100 % 256
            &&& merged / 0x100_0000 % 256 == reg / 0x1_0000 % 256
        }),
        ({
            let merged = (word & (0xFFFF_FFFFu32 >> 16)) | (reg << 16);
            &&& merged % 256 == word % 256
            &&& merged / 0x100 % 256 == word / 0x100 % 256
            &&& merged / 0x1_0000 % 256 == reg % 256
            &&& merged / 0x100_0000 % 256 == reg / 0x100 % 256
        }),
        ({
            let merged = (word & (0xFFFF_FFFFu32 >> 8)) | (reg << 24);
            &&& merged % 256 == word % 256
            &&& merged / 0x100 % 256 == word / 0x100 % 256
            &&& merged / 0x1_0000 % 256 == word / 0x1_0000 % 256
            &&& merged / 0x100_0000 % 256 == reg % 256
        }),
{
}

/// Store-word-left: stores the high end of the register into the aligned
/// word that holds the address, up to the address.
fn store_word_left(cpu: &mut Cpu, base: u32, rt: u32, offset: i32) -> (outcome: Result<
    PCOperation,
    Signal,
>)
    requires
        base < 32,
        rt < 32,
    ensures
        applied(Instruction::SWL(base, rt, offset), old(cpu)@, final(cpu)@, outcome),
{
    let rt_value = cpu.get_register(rt);
    match effective_address(cpu, base, offset) {
        None => Err(Signal::Fault(Fault::AddressOverflow)),
        Some(addr) => {
            let unaligned_offset = addr & 0b11;
            proof {
                lemma_low_bits(addr);
            }
            let aligned = addr - unaligned_offset;
            let word = cpu.memory.get_word(aligned);
            let mem_part = if unaligned_offset != 3 {
                word & (0xFFFF_FFFFu32 << (8 * (unaligned_offset + 1)))
            } else {
                0
            };
            let reg_part = rt_value >> (8 * (3 - unaligned_offset));
            let merged = mem_part | reg_part;
            cpu.memory.set_word(aligned, merged);
            proof {
                lemma_merge_store_left(word, rt_value);
                lemma_word_at_bytes(old(cpu)@.mem, aligned as int);
                assert(cpu@.mem =~= store_left(old(cpu)@.mem, addr as int, rt_value));
            }
            Ok(PCOperation::Offset(4))
        },
    }
}

/// Store-word-right: stores the low end of the register into the aligned
/// word that holds the address, from the address on.
fn store_word_right(cpu: &mut Cpu, base: u32, rt: u32, offset: i32) -> (outcome: Result<
    PCOperation,
    Signal,
>)
    requires
        base < 32,
        rt < 32,
    ensures
        applied(Instruction::SWR(base, rt, offset), old(cpu)@, final(cpu)@, outcome),
{
    let rt_value = cpu.get_register(rt);
    match effective_address(cpu, base, offset) {
        None => Err(Signal::Fault(Fault::AddressOverflow)),
        Some(addr) => {
            let unaligned_offset = addr & 0b11;
            proof {
                lemma_low_bits(addr);
            }
            let aligned = addr - unaligned_offset;
            let word = cpu.memory.get_word(aligned);
            let mem_part = if unaligned_offset != 0 {
                word & (0xFFFF_FFFFu32 >> (8 * (4 - unaligned_offset)))
            } else {
                0
            };
            let reg_part = rt_value << (8 * unaligned_offset);
            let merged = mem_part | reg_part;
            cpu.memory.set_word(aligned, merged);
            proof {
                lemma_merge_store_right(word, rt_value);
                lemma_word_at_bytes(old(cpu)@.mem, aligned as int);
                assert(cpu@.mem =~= store_right(old(cpu)@.mem, addr as int, rt_value));
            }
            Ok(PCOperation::Offset(4))
        },
    }
}

/// The two's-complement bits of a signed 64-bit value, and their halves.
proof fn lemma_product_bits(product: i64, bits: u64)
    by (bit_vector)
    requires
        bits == product as u64,
    ensures
        bits as int == if product >= 0 {
            product as int
        } else {
            product as int + 0x1_0000_0000_0000_0000
        },
        (bits as u32) as u64 == bits % 0x1_0000_0000,
        ((bits >> 32) as u32) as u64 == bits / 0x1_0000_0000,
{
}

/// The halves of an unsigned 64-bit value.
proof fn lemma_halves(bits: u64)
    by (bit_vector)
    ensures
        (bits as u32) as u64 == bits % 0x1_0000_0000,
        ((bits >> 32) as u32) as u64 == bits / 0x1_0000_0000,
{
}

/// The 64-bit product of the signed readings of two words, as its high and
/// its low word.
#[verifier::spinoff_prover]
fn multiply_signed(a: u32, b: u32) -> (parts: (u32, u32))
    ensures
        parts.0 == wrap32(signed(a) * signed(b) / 0x1_0000_0000),
        parts.1 == wrap32(signed(a) * signed(b)),
{
    let x = u2i(a) as i64;
    let y = u2i(b) as i64;
    assert(-0x4000_0000_0000_0000 <= x * y <= 0x4000_0000_0000_0000) by (nonlinear_arith)
        requires
            -0x8000_0000 <= x < 0x8000_0000,
            -0x8000_0000 <= y < 0x8000_0000,
    ;
    let product = x * y;
    let bits = #[verifier::truncate] (product as u64);
    proof {
        lemma_product_bits(product, bits);
    }
    let lo = #[verifier::truncate] (bits as u32);
    let hi = (bits >> 32) as u32;
    (hi, lo)
}

/// The 64-bit product of two words, as its high and its low word.
#[verifier::spinoff_prover]
fn multiply_unsigned(a: u32, b: u32) -> (parts: (u32, u32))
    ensures
        parts.0 == wrap32(a * b / 0x1_0000_0000),
        parts.1 == wrap32(a * b),
{
    let x = a as u64;
    let y = b as u64;
    assert(0 <= x * y <= 0xFFFF_FFFE_0000_0001) by (nonlinear_arith)
        requires
            0 <= x <= 0xFFFF_FFFF,
            0 <= y <= 0xFFFF_FFFF,
    ;
    let product = x * y;
    proof {
        lemma_halves(product);
    }
    let lo = #[verifier::truncate] (product as u32);
    let hi = (product >> 32) as u32;
    (hi, lo)
}

/// A quotient of natural numbers is no larger than the dividend, and the
/// remainder is smaller than the divisor.
proof fn lemma_division_bounds(x: int, d: int)
    by (nonlinear_arith)
    requires
        x >= 0,
        d > 0,
    ensures
        0 <= x / d <= x,
        d >= 2 ==> 2 * (x / d) <= x,
        0 <= x % d < d,
{
}

/// Signed division: the quotient, rounded toward zero, goes to `lo` and the
/// remainder to `hi`.
fn divide_signed(cpu: &mut Cpu, rs: u32, rt: u32) -> (outcome: Result<PCOperation, Signal>)
    requires
        rs < 32,
        rt < 32,
    ensures
        applied(Instruction::DIV(rs, rt), old(cpu)@, final(cpu)@, outcome),
{
    let rs_value = u2i(cpu.get_register(rs));
    let rt_value = u2i(cpu.get_register(rt));
    if rt_value == 0 {
        return Err(Signal::Fault(Fault::DivisionByZero));
    }
    if rs_value == i32::MIN && rt_value == -1 {
        return Err(Signal::Fault(Fault::DivisionOverflow));
    }
    proof {
        let x: int = if rs_value >= 0 {
            rs_value as int
        } else {
            -rs_value
        };
        let d: int = if rt_value >= 0 {
            rt_value as int
        } else {
            -rt_value
        };
        lemma_division_bounds(x, d);
    }
    match (rs_value.checked_div(rt_value), rs_value.checked_rem(rt_value)) {
        (Some(q), Some(r)) => {
            cpu.lo = i2u(q);
            cpu.hi = i2u(r);
            Ok(PCOperation::Offset(4))
        },
        _ => Err(Signal::Fault(Fault::DivisionOverflow)),
    }
}

/// Unsigned division: the quotient goes to `lo` and the remainder to `hi`.
fn divide_unsigned(cpu: &mut Cpu, rs: u32, rt: u32) -> (outcome: Result<PCOperation, Signal>)
    requires
        rs < 32,
        rt < 32,
    ensures
        applied(Instruction::DIVU(rs, rt), old(cpu)@, final(cpu)@, outcome),
{
    let rs_value = cpu.get_register(rs);
    let rt_value = cpu.get_register(rt);
    if rt_value == 0 {
        return Err(Signal::Fault(Fault::DivisionByZero));
    }
    cpu.lo = rs_value / rt_value;
    cpu.hi = rs_value % rt_value;
    Ok(PCOperation::Offset(4))
}

/// Writes a result to a register and goes on to the next instruction.
fn write_register(cpu: &mut Cpu, dest: u32, value: u32) -> (outcome: Result<PCOperation, Signal>)
    requires
        dest < 32,
    ensures
        final(cpu)@ == old(cpu)@.set_reg(dest, value),
        outcome == Ok::<PCOperation, Signal>(PCOperation::Offset(4)),
{
    cpu.set_register(dest, value);
    Ok(PCOperation::Offset(4))
}

/// Writes a signed sum to a register, or traps if it does not fit.
fn write_sum(cpu: &mut Cpu, x: i32, y: i32, dest: u32) -> (outcome: Result<PCOperation, Signal>)
    requires
        dest < 32,
    ensures
        final(cpu)@ == write_or_trap(old(cpu)@, x + y, dest, TrapReason::AddOverflow).state,
        outcome == write_or_trap(old(cpu)@, x + y, dest, TrapReason::AddOverflow).outcome,
{
    match x.checked_add(y) {
        Some(res) => write_register(cpu, dest, i2u(res)),
        None => Err(Signal::Trap(TrapReason::AddOverflow)),
    }
}

/// Writes a signed difference to a register, or traps if it does not fit.
fn write_difference(cpu: &mut Cpu, x: i32, y: i32, dest: u32) -> (outcome: Result<
    PCOperation,
    Signal,
>)
    requires
        dest < 32,
    ensures
        final(cpu)@ == write_or_trap(old(cpu)@, x - y, dest, TrapReason::SubOverflow).state,
        outcome == write_or_trap(old(cpu)@, x - y, dest, TrapReason::SubOverflow).outcome,
{
    match x.checked_sub(y) {
        Some(res) => write_register(cpu, dest, i2u(res)),
        None => Err(Signal::Trap(TrapReason::SubOverflow)),
    }
}

/// The sum of a word and a signed immediate, modulo 2^32.
fn add_immediate(a: u32, imm: i32) -> (sum: u32)
    ensures
        sum == wrap32(a + imm),
{
    i2u(u2i(a).wrapping_add(imm))
}

/// The sum of two words, modulo 2^32.
fn add_words(a: u32, b: u32) -> (sum: u32)
    ensures
        sum == wrap32(a + b),
{
    a.wrapping_add(b)
}

/// The difference of two words, modulo 2^32.
fn subtract_words(a: u32, b: u32) -> (difference: u32)
    ensures
        difference == wrap32(a - b),
{
    a.wrapping_sub(b)
}

/// The five low bits of a register: the amount of a variable shift.
fn shift_amount(amount: u32) -> (shift: u32)
    ensures
        shift == amount % 32,
{
    proof {
        lemma_low_bits(amount);
    }
    (amount << 27) >> 27
}

/// An immediate, moved to the upper half of a word.
fn upper_immediate(imm: u32) -> (value: u32)
    requires
        imm < 0x1_0000,
    ensures
        value == wrap32(imm * 0x1_0000),
{
    proof {
        lemma_low_bits(imm);
    }
    imm << 16
}

/// 1 if the condition holds, 0 if not.
fn flag(condition: bool) -> (value: u32)
    ensures
        value == if condition {
            1u32
        } else {
            0u32
        },
{
    if condition {
        1
    } else {
        0
    }
}

/// Executes one instruction on the processor: changes registers and memory
/// as the instruction says, and returns how the program counter moves, or the
/// signal that the instruction raises.  The program counters themselves are
/// left to the caller.
///
/// An instruction that traps or faults changes nothing.
#[verifier::spinoff_prover]
pub fn apply_instruction(inst: &Instruction, cpu: &mut Cpu) -> (outcome: Result<
    PCOperation,
    Signal,
>)
    requires
        inst.wf(),
    ensures
        applied(*inst, old(cpu)@, final(cpu)@, outcome),
{
    let pc = cpu.pc;
    match *inst {
        Instruction::Unknown(word) => Err(Signal::Fault(Fault::UnknownInstruction(word))),
        Instruction::ADD(rs, rt, rd) => {
            let rs_value = u2i(cpu.get_register(rs));
            let rt_value = u2i(cpu.get_register(rt));
            write_sum(cpu, rs_value, rt_value, rd)
        },
        Instruction::ADDI(rs, rt, imm) => {
            let rs_value = u2i(cpu.get_register(rs));
            write_sum(cpu, rs_value, imm, rt)
        },
        Instruction::ADDIU(rs, rt, imm) => {
            let rs_value = cpu.get_register(rs);
            write_register(cpu, rt, add_immediate(rs_value, imm))
        },
        Instruction::ADDU(rs, rt, rd) => {
            let rs_value = cpu.get_register(rs);
            let rt_value = cpu.get_register(rt);
            write_register(cpu, rd, add_words(rs_value, rt_value))
        },
        Instruction::AND(rs, rt, rd) => {
            let rs_value = cpu.get_register(rs);
            let rt_value = cpu.get_register(rt);
            write_register(cpu, rd, rs_value & rt_value)
        },
        Instruction::ANDI(rs, rt, imm) => {
            let rs_value = cpu.get_register(rs);
            write_register(cpu, rt, rs_value & imm)
        },
        Instruction::BEQ(rs, rt, offset) => {
            let rs_value = cpu.get_register(rs);
            let rt_value = cpu.get_register(rt);
            Ok(branch_to(rs_value == rt_value, offset))
        },
        Instruction::BGEZ(rs, offset) => {
            let rs_value = u2i(cpu.get_register(rs));
            Ok(branch_to(rs_value >= 0, offset))
        },
        Instruction::BGEZAL(rs, offset) => {
            if !link_register(cpu, 31) {
                return Err(Signal::Fault(Fault::AddressOverflow));
            }
            let rs_value = u2i(cpu.get_register(rs));
            Ok(branch_to(rs_value >= 0, offset))
        },
        Instruction::BGTZ(rs, offset) => {
            let rs_value = u2i(cpu.get_register(rs));
            Ok(branch_to(rs_value > 0, offset))
        },
        Instruction::BLEZ(rs, offset) => {
            let rs_value = u2i(cpu.get_register(rs));
            Ok(branch_to(rs_value <= 0, offset))
        },
        Instruction::BLTZ(rs, offset) => {
            let rs_value = u2i(cpu.get_register(rs));
            Ok(branch_to(rs_value < 0, offset))
        },
        Instruction::BLTZAL(rs, offset) => {
            if !link_register(cpu, 31) {
                return Err(Signal::Fault(Fault::AddressOverflow));
            }
            let rs_value = u2i(cpu.get_register(rs));
            Ok(branch_to(rs_value < 0, offset))
        },
        Instruction::BNE(rs, rt, offset) => {
            let rs_value = cpu.get_register(rs);
            let rt_value = cpu.get_register(rt);
            Ok(branch_to(rs_value != rt_value, offset))
        },
        Instruction::BREAK => Err(Signal::Breakpoint(pc)),
        Instruction::DIV(rs, rt) => divide_signed(cpu, rs, rt),
        Instruction::DIVU(rs, rt) => divide_unsigned(cpu, rs, rt),
        Instruction::J(instr_index) => Ok(PCOperation::JumpCompute(instr_index)),
        Instruction::JAL(instr_index) => {
            if !link_register(cpu, 31) {
                return Err(Signal::Fault(Fault::AddressOverflow));
            }
            Ok(PCOperation::JumpCompute(instr_index))
        },
        Instruction::JALR(rs, rd) => {
            if !link_register(cpu, rd) {
                return Err(Signal::Fault(Fault::AddressOverflow));
            }
            let addr = cpu.get_register(rs);
            Ok(PCOperation::JumpReal(addr))
        },
        Instruction::JR(rs) => {
            let addr = cpu.get_register(rs);
            Ok(PCOperation::JumpReal(addr))
        },
        Instruction::LB(base, rt, offset) => load_byte(cpu, base, rt, offset, true),
        Instruction::LBU(base, rt, offset) => load_byte(cpu, base, rt, offset, false),
        Instruction::LH(base, rt, offset) => load_half_word(cpu, base, rt, offset, true),
        Instruction::LHU(base, rt, offset) => load_half_word(cpu, base, rt, offset, false),
        Instruction::LUI(rt, imm) => {
            write_register(cpu, rt, upper_immediate(imm))
        },
        Instruction::LW(base, rt, offset) => load_word(cpu, base, rt, offset),
        Instruction::LWL(base, rt, offset) => load_word_left(cpu, base, rt, offset),
        Instruction::LWR(base, rt, offset) => load_word_right(cpu, base, rt, offset),
        Instruction::MFHI(rd) => {
            let value = cpu.hi;
            write_register(cpu, rd, value)
        },
        Instruction::MFLO(rd) => {
            let value = cpu.lo;
            write_register(cpu, rd, value)
        },
        Instruction::MOVN(rs, rt, rd) => {
            let rt_value = cpu.get_register(rt);
            if rt_value != 0 {
                let rs_value = cpu.get_register(rs);
                cpu.set_register(rd, rs_value);
            }
            Ok(PCOperation::Offset(4))
        },
        Instruction::MOVZ(rs, rt, rd) => {
            let rt_value = cpu.get_register(rt);
            if rt_value == 0 {
                let rs_value = cpu.get_register(rs);
                cpu.set_register(rd, rs_value);
            }
            Ok(PCOperation::Offset(4))
        },
        Instruction::MTHI(rs) => {
            cpu.hi = cpu.get_register(rs);
            Ok(PCOperation::Offset(4))
        },
        Instruction::MTLO(rs) => {
            cpu.lo = cpu.get_register(rs);
            Ok(PCOperation::Offset(4))
        },
        Instruction::MUL(rs, rt, rd) => {
            let (_, lo) = multiply_signed(cpu.get_register(rs), cpu.get_register(rt));
            write_register(cpu, rd, lo)
        },
        Instruction::MULT(rs, rt) => {
            let (hi, lo) = multiply_signed(cpu.get_register(rs), cpu.get_register(rt));
            cpu.lo = lo;
            cpu.hi = hi;
            Ok(PCOperation::Offset(4))
        },
        Instruction::MULTU(rs, rt) => {
            let (hi, lo) = multiply_unsigned(cpu.get_register(rs), cpu.get_register(rt));
            cpu.lo = lo;
            cpu.hi = hi;
            Ok(PCOperation::Offset(4))
        },
        Instruction::NOR(rs, rt, rd) => {
            let rs_value = cpu.get_register(rs);
            let rt_value = cpu.get_register(rt);
            write_register(cpu, rd, !(rs_value | rt_value))
        },
        Instruction::OR(rs, rt, rd) => {
            let rs_value = cpu.get_register(rs);
            let rt_value = cpu.get_register(rt);
            write_register(cpu, rd, rs_value | rt_value)
        },
        Instruction::ORI(rs, rt, imm) => {
            let rs_value = cpu.get_register(rs);
            write_register(cpu, rt, rs_value | imm)
        },
        Instruction::SB(base, rt, offset) => store_byte(cpu, base, rt, offset),
        Instruction::SH(base, rt, offset) => store_half(cpu, base, rt, offset),
        Instruction::SLL(rt, rd, shift) => {
            let rt_value = cpu.get_register(rt);
            write_register(cpu, rd, rt_value << shift)
        },
        Instruction::SLLV(rs, rt, rd) => {
            let rt_value = cpu.get_register(rt);
            let shift = shift_amount(cpu.get_register(rs));
            write_register(cpu, rd, rt_value << shift)
        },
        Instruction::SLT(rs, rt, rd) => {
            let rs_value = u2i(cpu.get_register(rs));
            let rt_value = u2i(cpu.get_register(rt));
            let res = flag(rs_value < rt_value);
            write_register(cpu, rd, res)
        },
        Instruction::SLTI(rs, rt, imm) => {
            let rs_value = u2i(cpu.get_register(rs));
            let res = flag(rs_value < imm);
            write_register(cpu, rt, res)
        },
        Instruction::SLTIU(rs, rt, imm) => {
            let rs_value = cpu.get_register(rs);
            let imm = i2u(imm);
            let res = flag(rs_value < imm);
            write_register(cpu, rt, res)
        },
        Instruction::SLTU(rs, rt, rd) => {
            let rs_value = cpu.get_register(rs);
            let rt_value = cpu.get_register(rt);
            let res = flag(rs_value < rt_value);
            write_register(cpu, rd, res)
        },
        Instruction::SRA(rt, rd, shift) => {
            let rt_value = cpu.get_register(rt);
            write_register(cpu, rd, arithmetic_shift(rt_value, shift))
        },
        Instruction::SRAV(rs, rt, rd) => {
            let rt_value = cpu.get_register(rt);
            let shift = shift_amount(cpu.get_register(rs));
            write_register(cpu, rd, arithmetic_shift(rt_value, shift))
        },
        Instruction::SRL(rt, rd, shift) => {
            let rt_value = cpu.get_register(rt);
            write_register(cpu, rd, rt_value >> shift)
        },
        Instruction::SRLV(rs, rt, rd) => {
            let rt_value = cpu.get_register(rt);
            let shift = shift_amount(cpu.get_register(rs));
            write_register(cpu, rd, rt_value >> shift)
        },
        Instruction::SUB(rs, rt, rd) => {
            let rs_value = u2i(cpu.get_register(rs));
            let rt_value = u2i(cpu.get_register(rt));
            write_difference(cpu, rs_value, rt_value, rd)
        },
        Instruction::SUBU(rs, rt, rd) => {
            let rs_value = cpu.get_register(rs);
            let rt_value = cpu.get_register(rt);
            write_register(cpu, rd, subtract_words(rs_value, rt_value))
        },
        Instruction::SW(base, rt, offset) => store_full_word(cpu, base, rt, offset),
        Instruction::SWL(base, rt, offset) => store_word_left(cpu, base, rt, offset),
        Instruction::SWR(base, rt, offset) => store_word_right(cpu, base, rt, offset),
        Instruction::SYSCALL => Err(call_syscall(cpu)),
        Instruction::TEQ(rs, rt) => {
            let rs_value = cpu.get_register(rs);
            let rt_value = cpu.get_register(rt);
            if rs_value == rt_value {
                Err(Signal::Trap(TrapReason::TrapOnEqual))
            } else {
                Ok(PCOperation::Offset(4))
            }
        },
        Instruction::XOR(rs, rt, rd) => {
            let rs_value = cpu.get_register(rs);
            let rt_value = cpu.get_register(rt);
            write_register(cpu, rd, rs_value ^ rt_value)
        },
        Instruction::XORI(rs, rt, imm) => {
            let rs_value = cpu.get_register(rs);
            write_register(cpu, rt, rs_value ^ imm)
        },
    }
}

/// An instruction that raises a signal changes neither registers nor memory.
#[verifier::spinoff_prover]
#[verifier::rlimit(60)]
pub proof fn lemma_signal_changes_nothing(inst: Instruction, s: CpuView)
    ensures
        apply_spec(inst, s).outcome is Err ==> apply_spec(inst, s).state == s,
{
    match inst {
        Instruction::Unknown(..) => {},
        Instruction::ADD(..) => {},
        Instruction::ADDI(..) => {},
        Instruction::ADDIU(..) => {},
        Instruction::ADDU(..) => {},
        Instruction::AND(..) => {},
        Instruction::ANDI(..) => {},
        Instruction::BEQ(..) => {},
        Instruction::BGEZ(..) => {},
        Instruction::BGEZAL(..) => {},
        Instruction::BGTZ(..) => {},
        Instruction::BLEZ(..) => {},
        Instruction::BLTZ(..) => {},
        Instruction::BLTZAL(..) => {},
        Instruction::BNE(..) => {},
        Instruction::BREAK => {},
        Instruction::DIV(..) => {},
        Instruction::DIVU(..) => {},
        Instruction::J(..) => {},
        Instruction::JAL(..) => {},
        Instruction::JALR(..) => {},
        Instruction::JR(..) => {},
        Instruction::LB(..) => {},
        Instruction::LBU(..) => {},
        Instruction::LH(..) => {},
        Instruction::LHU(..) => {},
        Instruction::LUI(..) => {},
        Instruction::LW(..) => {},
        Instruction::LWL(..) => {},
        Instruction::LWR(..) => {},
        Instruction::MFHI(..) => {},
        Instruction::MFLO(..) => {},
        Instruction::MOVN(..) => {},
        Instruction::MOVZ(..) => {},
        Instruction::MTHI(..) => {},
        Instruction::MTLO(..) => {},
        Instruction::MUL(..) => {},
        Instruction::MULT(..) => {},
        Instruction::MULTU(..) => {},
        Instruction::NOR(..) => {},
        Instruction::OR(..) => {},
        Instruction::ORI(..) => {},
        Instruction::SB(..) => {},
        Instruction::SH(..) => {},
        Instruction::SLL(..) => {},
        Instruction::SLLV(..) => {},
        Instruction::SLT(..) => {},
        Instruction::SLTU(..) => {},
        Instruction::SLTI(..) => {},
        Instruction::SLTIU(..) => {},
        Instruction::SRA(..) => {},
        Instruction::SRAV(..) => {},
        Instruction::SRL(..) => {},
        Instruction::SRLV(..) => {},
        Instruction::SUB(..) => {},
        Instruction::SUBU(..) => {},
        Instruction::SW(..) => {},
        Instruction::SWL(..) => {},
        Instruction::SWR(..) => {},
        Instruction::SYSCALL => {},
        Instruction::TEQ(..) => {},
        Instruction::XOR(..) => {},
        Instruction::XORI(..) => {},
    }
}

/// An instruction changes neither the program counters nor the breakpoints.
#[verifier::spinoff_prover]
#[verifier::rlimit(60)]
pub proof fn lemma_keeps_breakpoints(inst: Instruction, s: CpuView)
    ensures
        apply_spec(inst, s).state.pc == s.pc,
        apply_spec(inst, s).state.npc == s.npc,
        apply_spec(inst, s).state.breakpoints == s.breakpoints,
        apply_spec(inst, s).state.waiting == s.waiting,
{
    match inst {
        Instruction::Unknown(..) => {},
        Instruction::ADD(..) => {},
        Instruction::ADDI(..) => {},
        Instruction::ADDIU(..) => {},
        Instruction::ADDU(..) => {},
        Instruction::AND(..) => {},
        Instruction::ANDI(..) => {},
        Instruction::BEQ(..) => {},
        Instruction::BGEZ(..) => {},
        Instruction::BGEZAL(..) => {},
        Instruction::BGTZ(..) => {},
        Instruction::BLEZ(..) => {},
        Instruction::BLTZ(..) => {},
        Instruction::BLTZAL(..) => {},
        Instruction::BNE(..) => {},
        Instruction::BREAK => {},
        Instruction::DIV(..) => {},
        Instruction::DIVU(..) => {},
        Instruction::J(..) => {},
        Instruction::JAL(..) => {},
        Instruction::JALR(..) => {},
        Instruction::JR(..) => {},
        Instruction::LB(..) => {},
        Instruction::LBU(..) => {},
        Instruction::LH(..) => {},
        Instruction::LHU(..) => {},
        Instruction::LUI(..) => {},
        Instruction::LW(..) => {},
        Instruction::LWL(..) => {},
        Instruction::LWR(..) => {},
        Instruction::MFHI(..) => {},
        Instruction::MFLO(..) => {},
        Instruction::MOVN(..) => {},
        Instruction::MOVZ(..) => {},
        Instruction::MTHI(..) => {},
        Instruction::MTLO(..) => {},
        Instruction::MUL(..) => {},
        Instruction::MULT(..) => {},
        Instruction::MULTU(..) => {},
        Instruction::NOR(..) => {},
        Instruction::OR(..) => {},
        Instruction::ORI(..) => {},
        Instruction::SB(..) => {},
        Instruction::SH(..) => {},
        Instruction::SLL(..) => {},
        Instruction::SLLV(..) => {},
        Instruction::SLT(..) => {},
        Instruction::SLTU(..) => {},
        Instruction::SLTI(..) => {},
        Instruction::SLTIU(..) => {},
        Instruction::SRA(..) => {},
        Instruction::SRAV(..) => {},
        Instruction::SRL(..) => {},
        Instruction::SRLV(..) => {},
        Instruction::SUB(..) => {},
        Instruction::SUBU(..) => {},
        Instruction::SW(..) => {},
        Instruction::SWL(..) => {},
        Instruction::SWR(..) => {},
        Instruction::SYSCALL => {},
        Instruction::TEQ(..) => {},
        Instruction::XOR(..) => {},
        Instruction::XORI(..) => {},
    }
}

/// A well-formed instruction moves the program counter by a multiple of 4.
#[verifier::spinoff_prover]
#[verifier::rlimit(60)]
pub proof fn lemma_branch_offsets(inst: Instruction, s: CpuView)
    requires
        inst.wf(),
    ensures
        apply_spec(inst, s).outcome matches Ok(PCOperation::Offset(offset)) ==> offset % 4 == 0,
{
    match inst {
        Instruction::Unknown(..) => {},
        Instruction::ADD(..) => {},
        Instruction::ADDI(..) => {},
        Instruction::ADDIU(..) => {},
        Instruction::ADDU(..) => {},
        Instruction::AND(..) => {},
        Instruction::ANDI(..) => {},
        Instruction::BEQ(_, _, offset) => {
            assert((offset * 4) as i32 == offset * 4);
        },
        Instruction::BGEZ(_, offset) => {
            assert((offset * 4) as i32 == offset * 4);
        },
        Instruction::BGEZAL(_, offset) => {
            assert((offset * 4) as i32 == offset * 4);
        },
        Instruction::BGTZ(_, offset) => {
            assert((offset * 4) as i32 == offset * 4);
        },
        Instruction::BLEZ(_, offset) => {
            assert((offset * 4) as i32 == offset * 4);
        },
        Instruction::BLTZ(_, offset) => {
            assert((offset * 4) as i32 == offset * 4);
        },
        Instruction::BLTZAL(_, offset) => {
            assert((offset * 4) as i32 == offset * 4);
        },
        Instruction::BNE(_, _, offset) => {
            assert((offset * 4) as i32 == offset * 4);
        },
        Instruction::BREAK => {},
        Instruction::DIV(..) => {},
        Instruction::DIVU(..) => {},
        Instruction::J(..) => {},
        Instruction::JAL(..) => {},
        Instruction::JALR(..) => {},
        Instruction::JR(..) => {},
        Instruction::LB(..) => {},
        Instruction::LBU(..) => {},
        Instruction::LH(..) => {},
        Instruction::LHU(..) => {},
        Instruction::LUI(..) => {},
        Instruction::LW(..) => {},
        Instruction::LWL(..) => {},
        Instruction::LWR(..) => {},
        Instruction::MFHI(..) => {},
        Instruction::MFLO(..) => {},
        Instruction::MOVN(..) => {},
        Instruction::MOVZ(..) => {},
        Instruction::MTHI(..) => {},
        Instruction::MTLO(..) => {},
        Instruction::MUL(..) => {},
        Instruction::MULT(..) => {},
        Instruction::MULTU(..) => {},
        Instruction::NOR(..) => {},
        Instruction::OR(..) => {},
        Instruction::ORI(..) => {},
        Instruction::SB(..) => {},
        Instruction::SH(..) => {},
        Instruction::SLL(..) => {},
        Instruction::SLLV(..) => {},
        Instruction::SLT(..) => {},
        Instruction::SLTU(..) => {},
        Instruction::SLTI(..) => {},
        Instruction::SLTIU(..) => {},
        Instruction::SRA(..) => {},
        Instruction::SRAV(..) => {},
        Instruction::SRL(..) => {},
        Instruction::SRLV(..) => {},
        Instruction::SUB(..) => {},
        Instruction::SUBU(..) => {},
        Instruction::SW(..) => {},
        Instruction::SWL(..) => {},
        Instruction::SWR(..) => {},
        Instruction::SYSCALL => {},
        Instruction::TEQ(..) => {},
        Instruction::XOR(..) => {},
        Instruction::XORI(..) => {},
    }
}

/// Only a request to exit ends the program: a `SYSCALL` with 10 in `$2`.
#[verifier::spinoff_prover]
#[verifier::rlimit(60)]
pub proof fn lemma_exit_is_requested(inst: Instruction, s: CpuView)
    requires
        apply_spec(inst, s).outcome == Err::<PCOperation, Signal>(Signal::Exit),
    ensures
        inst == Instruction::SYSCALL,
        s.reg(2) == 10,
{
    match inst {
        Instruction::Unknown(..) => {},
        Instruction::ADD(..) => {},
        Instruction::ADDI(..) => {},
        Instruction::ADDIU(..) => {},
        Instruction::ADDU(..) => {},
        Instruction::AND(..) => {},
        Instruction::ANDI(..) => {},
        Instruction::BEQ(..) => {},
        Instruction::BGEZ(..) => {},
        Instruction::BGEZAL(..) => {},
        Instruction::BGTZ(..) => {},
        Instruction::BLEZ(..) => {},
        Instruction::BLTZ(..) => {},
        Instruction::BLTZAL(..) => {},
        Instruction::BNE(..) => {},
        Instruction::BREAK => {},
        Instruction::DIV(..) => {},
        Instruction::DIVU(..) => {},
        Instruction::J(..) => {},
        Instruction::JAL(..) => {},
        Instruction::JALR(..) => {},
        Instruction::JR(..) => {},
        Instruction::LB(..) => {},
        Instruction::LBU(..) => {},
        Instruction::LH(..) => {},
        Instruction::LHU(..) => {},
        Instruction::LUI(..) => {},
        Instruction::LW(..) => {},
        Instruction::LWL(..) => {},
        Instruction::LWR(..) => {},
        Instruction::MFHI(..) => {},
        Instruction::MFLO(..) => {},
        Instruction::MOVN(..) => {},
        Instruction::MOVZ(..) => {},
        Instruction::MTHI(..) => {},
        Instruction::MTLO(..) => {},
        Instruction::MUL(..) => {},
        Instruction::MULT(..) => {},
        Instruction::MULTU(..) => {},
        Instruction::NOR(..) => {},
        Instruction::OR(..) => {},
        Instruction::ORI(..) => {},
        Instruction::SB(..) => {},
        Instruction::SH(..) => {},
        Instruction::SLL(..) => {},
        Instruction::SLLV(..) => {},
        Instruction::SLT(..) => {},
        Instruction::SLTU(..) => {},
        Instruction::SLTI(..) => {},
        Instruction::SLTIU(..) => {},
        Instruction::SRA(..) => {},
        Instruction::SRAV(..) => {},
        Instruction::SRL(..) => {},
        Instruction::SRLV(..) => {},
        Instruction::SUB(..) => {},
        Instruction::SUBU(..) => {},
        Instruction::SW(..) => {},
        Instruction::SWL(..) => {},
        Instruction::SWR(..) => {},
        Instruction::SYSCALL => {},
        Instruction::TEQ(..) => {},
        Instruction::XOR(..) => {},
        Instruction::XORI(..) => {},
    }
}

/// A signed addition whose sum does not fit in 32 bits traps and leaves the
/// destination register, and everything else, as it was.
pub proof fn lemma_add_overflow_traps(s: CpuView, rs: u32, rt: u32, rd: u32)
    requires
        !fits_i32(signed(s.reg(rs)) + signed(s.reg(rt))),
    ensures
        apply_spec(Instruction::ADD(rs, rt, rd), s) == stop(
            s,
            Signal::Trap(TrapReason::AddOverflow),
        ),
{
}

/// An unsigned addition never traps: it writes the sum modulo 2^32.
pub proof fn lemma_add_unsigned_wraps(s: CpuView, rs: u32, rt: u32, rd: u32)
    ensures
        apply_spec(Instruction::ADDU(rs, rt, rd), s) == proceed(
            s.set_reg(rd, wrap32(s.reg(rs) + s.reg(rt))),
        ),
        s.reg(rs) == 0xFFFF_FFFF && s.reg(rt) == 1 ==> wrap32(s.reg(rs) + s.reg(rt)) == 0,
{
}

/// Whether the four bytes of a word are equal.
pub open spec fn bytes_equal(word: u32) -> bool {
    &&& word_byte(word, 1) == word_byte(word, 0)
    &&& word_byte(word, 2) == word_byte(word, 0)
    &&& word_byte(word, 3) == word_byte(word, 0)
}

/// A store-word-left and a store-word-right at the same address, one byte
/// past an aligned address, leave the word that a plain store of the register
/// at the aligned address leaves, for a register whose four bytes are equal.
/// (For other values they leave the low three bytes of the register above
/// its third byte.)
pub proof fn lemma_store_left_right_same_address(
    s: CpuView,
    base: u32,
    rt: u32,
    offset: i32,
)
    requires
        is_address(s.reg(base) + offset + 2),
        (s.reg(base) + offset) % 4 == 1,
        -0x8000 < offset,
        bytes_equal(s.reg(rt)),
    ensures
        ({
            let left = apply_spec(Instruction::SWL(base, rt, offset), s);
            let right = apply_spec(Instruction::SWR(base, rt, offset), left.state);
            let plain = apply_spec(Instruction::SW(base, rt, (offset - 1) as i32), s);
            &&& right.state == plain.state
            &&& right.outcome == plain.outcome
        }),
{
    let addr = s.reg(base) + offset;
    let left = apply_spec(Instruction::SWL(base, rt, offset), s);
    assert(store_right(store_left(s.mem, addr, s.reg(rt)), addr, s.reg(rt)) =~= store_word(
        s.mem,
        addr - 1,
        s.reg(rt),
    ));
}

/// The pair of partial stores that writes a word to any address: a
/// store-word-right at the address and a store-word-left three bytes further
/// store the four bytes of the register from the address on, whatever its
/// alignment.
pub proof fn lemma_unaligned_store(mem: Map<int, u8>, addr: int, reg: u32)
    ensures
        store_left(store_right(mem, addr, reg), addr + 3, reg) == store_word(mem, addr, reg),
{
    assert(store_left(store_right(mem, addr, reg), addr + 3, reg) =~= store_word(mem, addr, reg));
}

/// The pair of partial loads that reads a word from any address: a
/// load-word-right at the address and a load-word-left three bytes further
/// load the word whose four bytes stand from the address on, whatever its
/// alignment and whatever the register held.
pub proof fn lemma_unaligned_load(mem: Map<int, u8>, addr: int, reg: u32)
    ensures
        load_left(mem, addr + 3, load_right(mem, addr, reg)) == word_at(mem, addr),
{
    let right = load_right(mem, addr, reg);
    let k = addr % 4;
    lemma_bytes_of_word(
        mem[addr],
        if k <= 2 {
            mem[addr + 1]
        } else {
            word_byte(reg, 1)
        },
        if k <= 1 {
            mem[addr + 2]
        } else {
            word_byte(reg, 2)
        },
        if k == 0 {
            mem[addr + 3]
        } else {
            word_byte(reg, 3)
        },
    );
}

/// The bytes of a word that was composed of four bytes are those bytes.
pub proof fn lemma_bytes_of_word(b0: u8, b1: u8, b2: u8, b3: u8)
    ensures
        word_byte(word_of_bytes(b0, b1, b2, b3), 0) == b0,
        word_byte(word_of_bytes(b0, b1, b2, b3), 1) == b1,
        word_byte(word_of_bytes(b0, b1, b2, b3), 2) == b2,
        word_byte(word_of_bytes(b0, b1, b2, b3), 3) == b3,
{
    let mem = map![0int => b0, 1int => b1, 2int => b2, 3int => b3];
    lemma_word_at_bytes(mem, 0);
}

} // verus!
