use mips_emu::cpu::{Cpu, Fault, HostRequest, PCOperation, Signal, TrapReason};
use mips_emu::instruction::Instruction;

fn r_type(rs: u32, rt: u32, rd: u32, shift: u32, function: u32) -> u32 {
    (rs << 21) | (rt << 16) | (rd << 11) | (shift << 6) | function
}

fn i_type(opcode: u32, rs: u32, rt: u32, imm: u32) -> u32 {
    (opcode << 26) | (rs << 21) | (rt << 16) | (imm & 0xFFFF)
}

fn addiu(rt: u32, rs: u32, imm: u32) -> u32 {
    i_type(0b001001, rs, rt, imm)
}

const SYSCALL: u32 = 0b001100;

/// Runs the processor and expects no trap on the way.
fn quiet_run(cpu: &mut Cpu, single_step: bool, max_steps: u64) -> Option<Signal> {
    let mut traps = Vec::new();
    let signal = cpu.run(single_step, max_steps, &mut traps);
    assert!(traps.is_empty());
    signal
}

fn cpu_running(program: &[u32]) -> Cpu {
    let mut cpu = Cpu::new();
    let mut addr = 0;
    for word in program {
        cpu.memory.set_word(addr, *word);
        addr += 4;
    }
    cpu
}

#[test]
fn new_cpu_is_reset() {
    let cpu = Cpu::new();
    for index in 0..32 {
        assert_eq!(cpu.get_register(index), 0);
    }
    assert_eq!((cpu.hi, cpu.lo, cpu.pc, cpu.npc), (0, 0, 0, 4));
    assert!(cpu.breakpoints.is_empty());
    assert_eq!(cpu.waiting_breakpoint, None);
    assert_eq!(cpu.memory.get_word(0), 0);
}

#[test]
fn registers_hold_what_was_written() {
    let mut cpu = Cpu::new();
    for index in 1..32 {
        cpu.set_register(index, 0x1000 + index);
    }
    for index in 1..32 {
        assert_eq!(cpu.get_register(index), 0x1000 + index);
    }
    cpu.set_register(31, 0xFFFF_FFFF);
    assert_eq!(cpu.get_register(31), 0xFFFF_FFFF);
    assert_eq!(cpu.get_register(30), 0x1000 + 30);
    assert_eq!(cpu.get_register(1), 0x1001);
}

#[test]
fn register_zero_is_always_zero() {
    let mut cpu = Cpu::new();
    assert_eq!(cpu.get_register(0), 0);
    for value in [1u32, 0xFFFF_FFFF, 0x8000_0000, 0, 42] {
        cpu.set_register(0, value);
        assert_eq!(cpu.get_register(0), 0);
    }
    for index in 1..32 {
        assert_eq!(cpu.get_register(index), 0);
    }
}

#[test]
fn reset_keeps_the_breakpoints() {
    let mut cpu = Cpu::new();
    cpu.set_register(5, 9);
    cpu.hi = 1;
    cpu.lo = 2;
    cpu.pc = 0x100;
    cpu.npc = 0x200;
    cpu.add_or_remove_breakpoint(0x40);
    let mut memory = mips_emu::memory::Memory::new();
    memory.set_word(0x10, 0xAABB_CCDD);
    cpu.reset_with_memory(memory);
    assert_eq!(cpu.get_register(5), 0);
    assert_eq!((cpu.hi, cpu.lo, cpu.pc, cpu.npc), (0, 0, 0, 4));
    assert_eq!(cpu.memory.get_word(0x10), 0xAABB_CCDD);
    assert!(cpu.breakpoints.contains(&0x40));
}

#[test]
fn move_by_an_offset() {
    let mut cpu = Cpu::new();
    cpu.move_pc(PCOperation::Offset(4));
    assert_eq!((cpu.pc, cpu.npc), (4, 8));
    cpu.move_pc(PCOperation::Offset(40));
    assert_eq!((cpu.pc, cpu.npc), (8, 48));
    cpu.move_pc(PCOperation::Offset(-48));
    assert_eq!((cpu.pc, cpu.npc), (48, 0));
}

#[test]
fn move_by_a_jump() {
    let mut cpu = Cpu::new();
    cpu.move_pc(PCOperation::JumpReal(0x8000_1000));
    assert_eq!((cpu.pc, cpu.npc), (4, 0x8000_1000));
    cpu.move_pc(PCOperation::JumpCompute(0x10));
    assert_eq!((cpu.pc, cpu.npc), (0x8000_1000, 0x8000_0040));
    cpu.move_pc(PCOperation::JumpCompute(0x03FF_FFFF));
    assert_eq!((cpu.pc, cpu.npc), (0x8000_0040, 0x8FFF_FFFC));
    // bits of the index above the 26th are dropped
    cpu.move_pc(PCOperation::JumpCompute(0xFC00_0001));
    assert_eq!((cpu.pc, cpu.npc), (0x8FFF_FFFC, 0x8000_0004));
    cpu.npc = 0x1FFF_FFFC;
    cpu.move_pc(PCOperation::JumpCompute(0));
    assert_eq!((cpu.pc, cpu.npc), (0x1FFF_FFFC, 0x1000_0000));
}

#[test]
fn breakpoints_toggle() {
    let mut cpu = Cpu::new();
    cpu.add_or_remove_breakpoint(0x10);
    assert!(cpu.breakpoints.contains(&0x10));
    cpu.add_or_remove_breakpoint(0x20);
    assert_eq!(cpu.breakpoints.len(), 2);
    cpu.add_or_remove_breakpoint(0x10);
    assert!(!cpu.breakpoints.contains(&0x10));
    assert!(cpu.breakpoints.contains(&0x20));
    cpu.add_or_remove_breakpoint(0x10);
    cpu.add_or_remove_breakpoint(0x10);
    assert_eq!(cpu.breakpoints.len(), 1);
}

#[test]
fn transfer_arms_the_waiting_breakpoint() {
    let mut cpu = Cpu::new();
    cpu.transfer_bp();
    assert!(cpu.breakpoints.is_empty());
    cpu.waiting_breakpoint = Some(0x30);
    cpu.transfer_bp();
    assert!(cpu.breakpoints.contains(&0x30));
    assert_eq!(cpu.waiting_breakpoint, None);
}

#[test]
fn step_executes_one_instruction() {
    let mut cpu = cpu_running(&[addiu(1, 0, 5), addiu(2, 1, 0xFFFF)]);
    assert_eq!(cpu.step(), None);
    assert_eq!(cpu.get_register(1), 5);
    assert_eq!((cpu.pc, cpu.npc), (4, 8));
    assert_eq!(cpu.step(), None);
    assert_eq!(cpu.get_register(2), 4);
    assert_eq!((cpu.pc, cpu.npc), (8, 12));
    // the zero word does nothing
    assert_eq!(cpu.step(), None);
    assert_eq!((cpu.pc, cpu.npc), (12, 16));
}

#[test]
fn delay_slot_executes_before_the_branch_target() {
    let beq = i_type(0b000100, 1, 1, 2);
    let addi = i_type(0b001000, 2, 2, 1);
    let mut cpu = cpu_running(&[beq, addi, addi, addi]);
    assert_eq!(cpu.step(), None);
    assert_eq!(cpu.get_register(2), 0);
    assert_eq!((cpu.pc, cpu.npc), (4, 12));
    assert_eq!(cpu.step(), None);
    assert_eq!(cpu.get_register(2), 1);
    assert_eq!(cpu.pc, 12);
    assert_eq!(cpu.npc, 16);
    // the instruction at 8 was skipped, the one at the target executes
    assert_eq!(cpu.step(), None);
    assert_eq!(cpu.get_register(2), 2);
    assert_eq!(cpu.pc, 16);
}

#[test]
fn jump_and_link_returns_after_the_delay_slot() {
    let jal = (0b000011 << 26) | (0x100 >> 2);
    let jr_ra = r_type(31, 0, 0, 0, 0b001000);
    let mut cpu = cpu_running(&[jal, addiu(1, 1, 1), addiu(1, 1, 16)]);
    cpu.memory.set_word(0x100, jr_ra);
    cpu.memory.set_word(0x104, addiu(2, 2, 1));
    assert_eq!(cpu.step(), None);
    assert_eq!(cpu.get_register(31), 8);
    assert_eq!((cpu.pc, cpu.npc), (4, 0x100));
    assert_eq!(cpu.step(), None);
    assert_eq!(cpu.get_register(1), 1);
    assert_eq!((cpu.pc, cpu.npc), (0x100, 0x104));
    assert_eq!(cpu.step(), None);
    assert_eq!((cpu.pc, cpu.npc), (0x104, 8));
    assert_eq!(cpu.step(), None);
    assert_eq!(cpu.get_register(2), 1);
    assert_eq!((cpu.pc, cpu.npc), (8, 12));
    assert_eq!(cpu.step(), None);
    assert_eq!(cpu.get_register(1), 17);
}

#[test]
fn breakpoint_stops_before_the_instruction() {
    let mut cpu = cpu_running(&[addiu(1, 1, 1), addiu(1, 1, 1), addiu(1, 1, 1), addiu(1, 1, 1)]);
    cpu.add_or_remove_breakpoint(8);
    assert_eq!(quiet_run(&mut cpu, false, 100), Some(Signal::Breakpoint(8)));
    assert_eq!(cpu.get_register(1), 2);
    assert_eq!((cpu.pc, cpu.npc), (8, 12));
    assert!(!cpu.breakpoints.contains(&8));
    assert_eq!(cpu.waiting_breakpoint, Some(8));
    // the next step executes the instruction and arms the breakpoint again
    assert_eq!(cpu.step(), None);
    assert_eq!(cpu.get_register(1), 3);
    assert_eq!((cpu.pc, cpu.npc), (12, 16));
    assert!(cpu.breakpoints.contains(&8));
    assert_eq!(cpu.waiting_breakpoint, None);
}

#[test]
fn breakpoint_triggers_again_in_a_loop() {
    // 0: addiu $1,$1,1   4: j 0   8: nop
    let j0 = 0b000010 << 26;
    let mut cpu = cpu_running(&[addiu(1, 1, 1), j0, 0]);
    cpu.add_or_remove_breakpoint(0);
    assert_eq!(quiet_run(&mut cpu, false, 100), Some(Signal::Breakpoint(0)));
    assert_eq!(cpu.get_register(1), 0);
    assert_eq!(quiet_run(&mut cpu, false, 100), Some(Signal::Breakpoint(0)));
    assert_eq!(cpu.get_register(1), 1);
    assert_eq!(quiet_run(&mut cpu, false, 100), Some(Signal::Breakpoint(0)));
    assert_eq!(cpu.get_register(1), 2);
    // the breakpoint is armed again after the next step, and can then be removed
    assert_eq!(cpu.step(), None);
    assert_eq!(cpu.get_register(1), 3);
    assert!(cpu.breakpoints.contains(&0));
    cpu.add_or_remove_breakpoint(0);
    assert_eq!(quiet_run(&mut cpu, false, 9), None);
    assert_eq!(cpu.get_register(1), 6);
    assert_eq!(cpu.pc, 4);
}

#[test]
fn single_step_on_a_breakpoint_stops_at_once() {
    let mut cpu = cpu_running(&[addiu(1, 1, 1)]);
    cpu.add_or_remove_breakpoint(0);
    assert_eq!(quiet_run(&mut cpu, true, 1), Some(Signal::Breakpoint(0)));
    assert_eq!(cpu.get_register(1), 0);
    assert_eq!(cpu.pc, 0);
    assert_eq!(quiet_run(&mut cpu, true, 1), None);
    assert_eq!(cpu.get_register(1), 1);
}

#[test]
fn free_run_ends_on_exit() {
    let mut cpu = cpu_running(&[addiu(1, 0, 7), addiu(2, 0, 10), SYSCALL, addiu(1, 0, 9)]);
    assert_eq!(quiet_run(&mut cpu, false, 1000), Some(Signal::Exit));
    assert_eq!(cpu.get_register(1), 7);
    assert_eq!((cpu.pc, cpu.npc), (8, 12));
    // a halted processor stays halted
    assert_eq!(quiet_run(&mut cpu, false, 1000), Some(Signal::Exit));
    assert_eq!(quiet_run(&mut cpu, true, 1), Some(Signal::Exit));
    assert_eq!((cpu.pc, cpu.npc), (8, 12));
    assert_eq!(cpu.get_register(1), 7);
}

#[test]
fn free_run_is_bounded() {
    let mut cpu = cpu_running(&[]);
    assert_eq!(quiet_run(&mut cpu, false, 5), None);
    assert_eq!((cpu.pc, cpu.npc), (20, 24));
    assert_eq!(quiet_run(&mut cpu, false, 0), None);
    assert_eq!((cpu.pc, cpu.npc), (20, 24));
    assert_eq!(quiet_run(&mut cpu, true, 0), None);
    assert_eq!((cpu.pc, cpu.npc), (24, 28));
    assert_eq!(quiet_run(&mut cpu, true, 50), None);
    assert_eq!((cpu.pc, cpu.npc), (28, 32));
}

#[test]
fn free_run_goes_on_after_a_trap() {
    let add = r_type(1, 2, 3, 0, 0b100000);
    assert_eq!(add, 0x0022_1820);
    assert_eq!(addiu(2, 0, 10), 0x2402_000A);
    let mut cpu = cpu_running(&[add, addiu(2, 0, 10), SYSCALL]);
    cpu.set_register(1, 0x7FFF_FFFF);
    cpu.set_register(2, 1);
    let mut traps = Vec::new();
    assert_eq!(cpu.run(false, u64::MAX, &mut traps), Some(Signal::Exit));
    assert_eq!(traps, vec![(0, TrapReason::AddOverflow)]);
    assert_eq!(cpu.get_register(3), 0);
    assert_eq!(cpu.get_register(2), 10);
    assert_eq!((cpu.pc, cpu.npc), (8, 12));
}

#[test]
fn traps_are_recorded_in_their_order() {
    let add = r_type(1, 2, 3, 0, 0b100000);
    let lw = i_type(0b100011, 4, 5, 1);
    let teq = r_type(0, 0, 0, 0, 0b110100);
    let mut cpu = cpu_running(&[add, addiu(6, 6, 1), lw, teq, addiu(2, 0, 10), SYSCALL]);
    cpu.set_register(1, 0x7FFF_FFFF);
    cpu.set_register(2, 1);
    cpu.set_register(3, 0x55);
    cpu.set_register(4, 0x100);
    let mut traps = vec![(0xAAAA, TrapReason::SubOverflow)];
    assert_eq!(cpu.run(false, 100, &mut traps), Some(Signal::Exit));
    assert_eq!(
        traps,
        vec![
            (0xAAAA, TrapReason::SubOverflow),
            (0, TrapReason::AddOverflow),
            (8, TrapReason::UnalignedWord),
            (12, TrapReason::TrapOnEqual),
        ]
    );
    assert_eq!(cpu.get_register(3), 0x55);
    assert_eq!(cpu.get_register(5), 0);
    assert_eq!(cpu.get_register(6), 1);
    assert_eq!((cpu.pc, cpu.npc), (20, 24));
}

#[test]
fn a_trapping_step_counts_as_a_step() {
    let teq = r_type(0, 0, 0, 0, 0b110100);
    let mut cpu = cpu_running(&[teq, teq, teq, teq]);
    let mut traps = Vec::new();
    assert_eq!(cpu.run(false, 3, &mut traps), None);
    assert_eq!(traps.len(), 3);
    assert_eq!((cpu.pc, cpu.npc), (12, 16));
    assert_eq!(cpu.run(false, 0, &mut traps), None);
    assert_eq!(traps.len(), 3);
    assert_eq!(cpu.step(), Some(Signal::Trap(TrapReason::TrapOnEqual)));
    assert_eq!((cpu.pc, cpu.npc), (16, 20));
}

#[test]
fn single_step_records_a_trap() {
    let lw = i_type(0b100011, 1, 2, 1);
    let mut cpu = cpu_running(&[lw, lw]);
    cpu.set_register(1, 0x100);
    let mut traps = Vec::new();
    assert_eq!(cpu.run(true, 1, &mut traps), None);
    assert_eq!(traps, vec![(0, TrapReason::UnalignedWord)]);
    assert_eq!((cpu.pc, cpu.npc), (4, 8));
    assert_eq!(cpu.get_register(2), 0);
    assert_eq!(cpu.run(true, 1, &mut traps), None);
    assert_eq!(traps, vec![(0, TrapReason::UnalignedWord), (4, TrapReason::UnalignedWord)]);
    assert_eq!((cpu.pc, cpu.npc), (8, 12));
}

#[test]
fn a_trap_whose_next_address_is_none_faults() {
    let teq = r_type(0, 0, 0, 0, 0b110100);
    let mut cpu = Cpu::new();
    cpu.pc = 0xFFFF_FFF8;
    cpu.npc = 0xFFFF_FFFC;
    cpu.memory.set_word(0xFFFF_FFF8, teq);
    let mut traps = Vec::new();
    assert_eq!(cpu.run(false, 10, &mut traps), Some(Signal::Fault(Fault::AddressOverflow)));
    assert!(traps.is_empty());
    assert_eq!((cpu.pc, cpu.npc), (0xFFFF_FFF8, 0xFFFF_FFFC));
}

#[test]
fn host_request_is_handed_to_the_caller() {
    let mut cpu = cpu_running(&[addiu(2, 0, 1), addiu(4, 0, 0xFFD6), SYSCALL, addiu(2, 0, 10), SYSCALL]);
    assert_eq!(quiet_run(&mut cpu, false, 100), Some(Signal::Host(HostRequest::PrintInt(-42))));
    assert_eq!((cpu.pc, cpu.npc), (12, 16));
    assert_eq!(quiet_run(&mut cpu, false, 100), Some(Signal::Exit));
}

#[test]
fn unknown_instruction_stops_the_run() {
    let mut cpu = cpu_running(&[addiu(1, 0, 1), 0xFFFF_FFFF, addiu(1, 0, 2)]);
    assert_eq!(
        quiet_run(&mut cpu, false, 100),
        Some(Signal::Fault(Fault::UnknownInstruction(0xFFFF_FFFF)))
    );
    assert_eq!((cpu.pc, cpu.npc), (4, 8));
    assert_eq!(cpu.get_register(1), 1);
    assert_eq!(
        quiet_run(&mut cpu, false, 100),
        Some(Signal::Fault(Fault::UnknownInstruction(0xFFFF_FFFF)))
    );
    assert_eq!((cpu.pc, cpu.npc), (4, 8));
}

#[test]
fn unknown_syscall_stops_the_run() {
    let mut cpu = cpu_running(&[addiu(2, 0, 3), SYSCALL]);
    assert_eq!(quiet_run(&mut cpu, false, 100), Some(Signal::Fault(Fault::UnknownSyscall(3))));
    assert_eq!((cpu.pc, cpu.npc), (4, 8));
}

#[test]
fn break_instruction_stops_where_it_is() {
    let mut cpu = Cpu::new();
    cpu.pc = 0x20;
    assert_eq!(Instruction::BREAK.apply(&mut cpu), Err(Signal::Breakpoint(0x20)));
}

#[test]
fn fetch_beyond_the_address_space_faults() {
    let mut cpu = Cpu::new();
    cpu.pc = 0xFFFF_FFFE;
    cpu.npc = 0;
    assert_eq!(cpu.step(), Some(Signal::Fault(Fault::AddressOverflow)));
    assert_eq!((cpu.pc, cpu.npc), (0xFFFF_FFFE, 0));
    assert_eq!(cpu.pending_instruction(), None);
}

#[test]
fn program_counter_beyond_the_address_space_faults() {
    let mut cpu = Cpu::new();
    cpu.pc = 0xFFFF_FFF8;
    cpu.npc = 0xFFFF_FFFC;
    cpu.memory.set_word(0xFFFF_FFF8, addiu(1, 1, 1));
    assert_eq!(cpu.step(), Some(Signal::Fault(Fault::AddressOverflow)));
    assert_eq!((cpu.pc, cpu.npc), (0xFFFF_FFF8, 0xFFFF_FFFC));
    let mut cpu = Cpu::new();
    cpu.pc = 0xFFFF_FFF4;
    cpu.npc = 0xFFFF_FFF8;
    assert_eq!(cpu.step(), None);
    assert_eq!((cpu.pc, cpu.npc), (0xFFFF_FFF8, 0xFFFF_FFFC));
}

#[test]
fn pending_instruction_is_the_next_one() {
    let mut cpu = cpu_running(&[addiu(1, 0, 5), 0xFFFF_FFFF]);
    assert_eq!(cpu.pending_instruction(), Some(Instruction::ADDIU(0, 1, 5)));
    cpu.add_or_remove_breakpoint(0);
    assert_eq!(cpu.pending_instruction(), None);
    cpu.add_or_remove_breakpoint(0);
    assert_eq!(cpu.step(), None);
    assert_eq!(cpu.pending_instruction(), Some(Instruction::Unknown(0xFFFF_FFFF)));
}

#[test]
fn clone_is_a_snapshot() {
    let mut cpu = cpu_running(&[addiu(1, 1, 1), addiu(1, 1, 1)]);
    cpu.add_or_remove_breakpoint(0x40);
    let saved = cpu.clone();
    assert_eq!(quiet_run(&mut cpu, false, 2), None);
    cpu.add_or_remove_breakpoint(0x40);
    cpu.add_or_remove_breakpoint(0x44);
    cpu.memory.set_word(0, 0);
    assert_eq!(saved.get_register(1), 0);
    assert_eq!((saved.pc, saved.npc), (0, 4));
    assert!(saved.breakpoints.contains(&0x40));
    assert!(!saved.breakpoints.contains(&0x44));
    assert_eq!(saved.memory.get_word(0), addiu(1, 1, 1));
    let mut again = saved.clone();
    assert_eq!(quiet_run(&mut again, false, 2), None);
    assert_eq!(again.get_register(1), 2);
}

#[test]
fn signals_in_words() {
    assert_eq!(Signal::Trap(TrapReason::AddOverflow).to_string(), "Trapped on Add overflow..");
    assert_eq!(Signal::Trap(TrapReason::TrapOnEqual).to_string(), "Trapped on TEQ trap.");
    assert_eq!(Signal::Breakpoint(0x400).to_string(), "Stopped on breakpoint (pc=0x400).");
    assert_eq!(Signal::Breakpoint(0).to_string(), "Stopped on breakpoint (pc=0x0).");
    assert_eq!(
        Signal::Breakpoint(0xFFFF_FFFC).to_string(),
        "Stopped on breakpoint (pc=0xfffffffc)."
    );
    assert_eq!(Signal::Exit.to_string(), "Cpu halted.");
    assert_eq!(Signal::Host(HostRequest::PrintInt(-7)).to_string(), "Print -7.");
    assert_eq!(Signal::Host(HostRequest::PrintString(0x10)).to_string(), "Print text at 0x10.");
    assert_eq!(Signal::Host(HostRequest::ReadInt).to_string(), "Read integer.");
    assert_eq!(Signal::Host(HostRequest::ReadString(0xAB, 4)).to_string(), "Read text to 0xab.");
    assert_eq!(Signal::Fault(Fault::AddressOverflow).to_string(), "OVERFLOW ERROR");
}

#[test]
fn reasons_and_faults_in_words() {
    assert_eq!(TrapReason::AddOverflow.message(), "Add overflow.");
    assert_eq!(TrapReason::SubOverflow.message(), "Sub underflow.");
    assert_eq!(TrapReason::UnalignedWord.message(), "Address unaligned on word boundary.");
    assert_eq!(
        TrapReason::UnalignedHalfWord.message(),
        "Address unaligned on half-word boundary."
    );
    assert_eq!(TrapReason::TrapOnEqual.message(), "TEQ trap");
    assert_eq!(
        Fault::UnknownInstruction(0x8000_0005).message(),
        "Unknown Instruction. 10000000000000000000000000000101"
    );
    assert_eq!(Fault::UnknownSyscall(3).message(), "Wrong syscall number");
    assert_eq!(Fault::AddressOverflow.message(), "OVERFLOW ERROR");
    assert_eq!(Fault::DivisionByZero.message(), "attempt to divide by zero");
    assert_eq!(Fault::DivisionOverflow.message(), "attempt to divide with overflow");
}
