//! The processor: register file, program counters, memory and breakpoints,
//! and the state machine that executes one instruction at a time.

use crate::decoder::{decode_spec, lemma_decode_wf};
use crate::executer::{
    apply_spec, fits_i32, is_address, lemma_branch_offsets, lemma_exit_is_requested,
    lemma_keeps_breakpoints,
};
use crate::instruction::Instruction;
use crate::memory::{address_space, word_at, zero_memory, Memory};
use crate::text::{
    binary_digits, hexadecimal, push_binary, push_hexadecimal, push_signed_decimal, signed_decimal,
};
use crate::utils::{checked_offset_addr, offset_addr, offset_in_range, signed, wrap32};
use std::collections::HashSet;
use vstd::prelude::*;
use vstd::string::*;

verus! {

broadcast use vstd::std_specs::hash::group_hash_axioms;

/// How the program counter moves after an instruction.
#[derive(Debug, Clone, Copy, PartialEq, Eq, Structural)]
pub enum PCOperation {
    /// A signed byte offset from the address of the delay slot.
    Offset(i32),
    /// An absolute target address.
    JumpReal(u32),
    /// A 26-bit instruction index inside the region of the delay slot.
    JumpCompute(u32),
}

/// Why an instruction trapped.
#[derive(Debug, Clone, Copy, PartialEq, Eq, Structural)]
pub enum TrapReason {
    /// The sum of a signed addition does not fit in 32 bits.
    AddOverflow,
    /// The difference of a signed subtraction does not fit in 32 bits.
    SubOverflow,
    /// The address of a word is no multiple of 4.
    UnalignedWord,
    /// The address of a half-word is no multiple of 2.
    UnalignedHalfWord,
    /// The operands of a trap-on-equal are equal.
    TrapOnEqual,
}

/// An error of the engine itself, after which the run cannot go on.
#[derive(Debug, Clone, Copy, PartialEq, Eq, Structural)]
pub enum Fault {
    /// The word that was fetched is no known encoding.
    UnknownInstruction(u32),
    /// The number in `$2` names no service.
    UnknownSyscall(u32),
    /// An address computation left the 32-bit address space.
    AddressOverflow,
    /// A division by zero.
    DivisionByZero,
    /// The signed division of the least integer by -1.
    DivisionOverflow,
}

/// A service that the guest program asks of the host.
#[derive(Debug, Clone, Copy, PartialEq, Eq, Structural)]
pub enum HostRequest {
    /// Print this integer in decimal.
    PrintInt(i32),
    /// Print the NUL-terminated text that starts at this address.
    PrintString(u32),
    /// Read a line that holds a decimal integer.
    ReadInt,
    /// Read text into the buffer at this address, of this length.
    ReadString(u32, u32),
}

/// Why the processor hands control back to its caller.
#[derive(Debug, Clone, Copy, PartialEq, Eq, Structural)]
pub enum Signal {
    /// A recoverable architectural fault.  The faulting instruction had no
    /// effect and execution resumes after it.  A step raises it; a run
    /// records it and goes on.
    Trap(TrapReason),
    /// Execution stopped at this address.
    Breakpoint(u32),
    /// The program has ended.
    Exit,
    /// The program asks for a service of the host.
    Host(HostRequest),
    /// The engine cannot go on.
    Fault(Fault),
}

impl TrapReason {
    /// The reason in words.
    pub open spec fn text(self) -> Seq<char> {
        match self {
            TrapReason::AddOverflow => "Add overflow."@,
            TrapReason::SubOverflow => "Sub underflow."@,
            TrapReason::UnalignedWord => "Address unaligned on word boundary."@,
            TrapReason::UnalignedHalfWord => "Address unaligned on half-word boundary."@,
            TrapReason::TrapOnEqual => "TEQ trap"@,
        }
    }

    /// The reason in words.
    pub fn message(&self) -> (text: String)
        ensures
            text@ == self.text(),
    {
        match self {
            TrapReason::AddOverflow => "Add overflow.".to_string(),
            TrapReason::SubOverflow => "Sub underflow.".to_string(),
            TrapReason::UnalignedWord => "Address unaligned on word boundary.".to_string(),
            TrapReason::UnalignedHalfWord => "Address unaligned on half-word boundary.".to_string(),
            TrapReason::TrapOnEqual => "TEQ trap".to_string(),
        }
    }
}

impl Fault {
    /// The error in words.
    pub open spec fn text(self) -> Seq<char> {
        match self {
            Fault::UnknownInstruction(word) => "Unknown Instruction. "@ + binary_digits(
                word as nat,
                32,
            ),
            Fault::UnknownSyscall(_) => "Wrong syscall number"@,
            Fault::AddressOverflow => "OVERFLOW ERROR"@,
            Fault::DivisionByZero => "attempt to divide by zero"@,
            Fault::DivisionOverflow => "attempt to divide with overflow"@,
        }
    }

    /// The error in words.
    pub fn message(&self) -> (text: String)
        ensures
            text@ == self.text(),
    {
        match self {
            Fault::UnknownInstruction(word) => {
                let mut text = String::new();
                text.append("Unknown Instruction. ");
                push_binary(&mut text, *word, 32);
                assert(text@ =~= self.text());
                text
            },
            Fault::UnknownSyscall(_) => "Wrong syscall number".to_string(),
            Fault::AddressOverflow => "OVERFLOW ERROR".to_string(),
            Fault::DivisionByZero => "attempt to divide by zero".to_string(),
            Fault::DivisionOverflow => "attempt to divide with overflow".to_string(),
        }
    }
}

impl Signal {
    /// The signal in words, as a front end shows it.
    pub open spec fn text(self) -> Seq<char> {
        match self {
            Signal::Trap(reason) => "Trapped on "@ + reason.text() + "."@,
            Signal::Breakpoint(pc) => "Stopped on breakpoint (pc="@ + hexadecimal(pc as nat)
                + ")."@,
            Signal::Exit => "Cpu halted."@,
            Signal::Host(HostRequest::PrintInt(value)) => "Print "@ + signed_decimal(value as int)
                + "."@,
            Signal::Host(HostRequest::PrintString(addr)) => "Print text at "@ + hexadecimal(
                addr as nat,
            ) + "."@,
            Signal::Host(HostRequest::ReadInt) => "Read integer."@,
            Signal::Host(HostRequest::ReadString(addr, _)) => "Read text to "@ + hexadecimal(
                addr as nat,
            ) + "."@,
            Signal::Fault(fault) => fault.text(),
        }
    }

    /// The signal in words, as a front end shows it.
    pub fn to_string(&self) -> (text: String)
        ensures
            text@ == self.text(),
    {
        let mut text = String::new();
        match self {
            Signal::Trap(reason) => {
                text.append("Trapped on ");
                text.append(reason.message().as_str());
                text.append(".");
            },
            Signal::Breakpoint(pc) => {
                text.append("Stopped on breakpoint (pc=");
                push_hexadecimal(&mut text, *pc);
                text.append(").");
            },
            Signal::Exit => {
                text.append("Cpu halted.");
            },
            Signal::Host(HostRequest::PrintInt(value)) => {
                text.append("Print ");
                push_signed_decimal(&mut text, *value);
                text.append(".");
            },
            Signal::Host(HostRequest::PrintString(addr)) => {
                text.append("Print text at ");
                push_hexadecimal(&mut text, *addr);
                text.append(".");
            },
            Signal::Host(HostRequest::ReadInt) => {
                text.append("Read integer.");
            },
            Signal::Host(HostRequest::ReadString(addr, _)) => {
                text.append("Read text to ");
                push_hexadecimal(&mut text, *addr);
                text.append(".");
            },
            Signal::Fault(fault) => {
                text.append(fault.message().as_str());
            },
        }
        assert(text@ =~= self.text());
        text
    }
}

/// The mathematical state of a processor.
pub struct CpuView {
    /// The 32 registers; register 0 always holds 0.
    pub regs: Seq<u32>,
    pub hi: u32,
    pub lo: u32,
    /// The address of the instruction that executes next.
    pub pc: u32,
    /// The address of the instruction that executes after that one.
    pub npc: u32,
    /// The byte at every address.
    pub mem: Map<int, u8>,
    pub breakpoints: Set<u32>,
    /// The breakpoint on which the processor last stopped, not yet armed again.
    pub waiting: Option<u32>,
}

/// What a run leaves: the state, the signal that ended it, if one did, and
/// the traps on its way, each with the address of the instruction that
/// trapped, in the order in which they occurred.
pub struct Ran {
    pub state: CpuView,
    pub signal: Option<Signal>,
    pub traps: Seq<(u32, TrapReason)>,
}

/// The target of a jump by instruction index: the index, as a byte offset,
/// inside the 256 MiB region that holds the delay slot.
pub open spec fn jump_target(npc: u32, index: u32) -> u32 {
    (npc / 0x1000_0000 * 0x1000_0000 + index % 0x400_0000 * 4) as u32
}

impl CpuView {
    /// The value of register `index`.
    pub open spec fn reg(self, index: u32) -> u32 {
        self.regs[index as int]
    }

    /// The state after a write to register `index`.  Register 0 ignores writes.
    pub open spec fn set_reg(self, index: u32, value: u32) -> CpuView {
        if index == 0 {
            self
        } else {
            CpuView { regs: self.regs.update(index as int, value), ..self }
        }
    }

    /// The state after a write to `hi` and `lo`.
    pub open spec fn set_hi_lo(self, hi: u32, lo: u32) -> CpuView {
        CpuView { hi, lo, ..self }
    }

    /// The state with another memory.
    pub open spec fn set_mem(self, mem: Map<int, u8>) -> CpuView {
        CpuView { mem, ..self }
    }

    /// Whether the program counters can move as `op` says.
    pub open spec fn can_move(self, op: PCOperation) -> bool {
        op matches PCOperation::Offset(offset) ==> offset_in_range(self.npc, offset)
    }

    /// The state after the program counters moved: the delay slot becomes the
    /// current instruction and the target the next one.
    pub open spec fn move_pc(self, op: PCOperation) -> CpuView {
        CpuView {
            pc: self.npc,
            npc: match op {
                PCOperation::Offset(offset) => (self.npc + offset) as u32,
                PCOperation::JumpReal(target) => target,
                PCOperation::JumpCompute(index) => jump_target(self.npc, index),
            },
            ..self
        }
    }

    /// The state after the waiting breakpoint, if any, is armed again.
    pub open spec fn rearm(self) -> CpuView {
        match self.waiting {
            Some(bp) => CpuView {
                breakpoints: self.breakpoints.insert(bp),
                waiting: None,
                ..self
            },
            None => self,
        }
    }

    /// The state in which the processor has stopped on the breakpoint at its
    /// program counter: the breakpoint on which it stopped before is armed
    /// again, and this one waits until the next instruction has executed.
    pub open spec fn stop_at_breakpoint(self) -> CpuView {
        let armed = self.rearm();
        CpuView {
            breakpoints: armed.breakpoints.remove(self.pc),
            waiting: Some(self.pc),
            ..armed
        }
    }

    /// Moves the program counters and hands `signal` on.  Where the move
    /// would leave the address space, the counters stay and the engine
    /// faults.
    pub open spec fn advance(self, op: PCOperation, signal: Option<Signal>) -> (
        CpuView,
        Option<Signal>,
    ) {
        if self.can_move(op) {
            (self.move_pc(op), signal)
        } else {
            (self, Some(Signal::Fault(Fault::AddressOverflow)))
        }
    }

    /// What follows an instruction.  After a move of the program counter,
    /// execution goes on.  After a trap or a request to the host, the
    /// counters move to the next instruction and the signal is handed to the
    /// caller.  After any other signal, the counters stay.
    pub open spec fn finish(self, outcome: Result<PCOperation, Signal>) -> (
        CpuView,
        Option<Signal>,
    ) {
        match outcome {
            Ok(op) => self.advance(op, None),
            Err(Signal::Trap(reason)) => self.advance(
                PCOperation::Offset(4),
                Some(Signal::Trap(reason)),
            ),
            Err(Signal::Host(request)) => self.advance(
                PCOperation::Offset(4),
                Some(Signal::Host(request)),
            ),
            Err(signal) => (self, Some(signal)),
        }
    }

    /// The instruction that the next step executes, if it executes one.
    pub open spec fn pending(self) -> Option<Instruction> {
        if self.breakpoints.contains(self.pc) || self.pc + 3 >= address_space() {
            None
        } else {
            Some(decode_spec(word_at(self.mem, self.pc as int)))
        }
    }

    /// Whether the program has ended: the instruction at the program counter
    /// is a request to exit.
    pub open spec fn halted(self) -> bool {
        &&& is_address(self.pc + 3)
        &&& decode_spec(word_at(self.mem, self.pc as int)) == Instruction::SYSCALL
        &&& self.reg(2) == 10
    }

    /// One step of the processor.  On a breakpoint it stops before the
    /// instruction.  Otherwise it fetches the word at the program counter,
    /// decodes and executes it, arms the waiting breakpoint again, and moves
    /// the program counters.
    #[verifier::opaque]
    pub open spec fn step(self) -> (CpuView, Option<Signal>) {
        if self.breakpoints.contains(self.pc) {
            (self.stop_at_breakpoint(), Some(Signal::Breakpoint(self.pc)))
        } else {
            match self.pending() {
                Some(inst) => {
                    let effect = apply_spec(inst, self);
                    effect.state.rearm().finish(effect.outcome)
                },
                None => (self, Some(Signal::Fault(Fault::AddressOverflow))),
            }
        }
    }

    /// A run of the processor.  A single step is one step.  A free run goes
    /// on until a step raises a signal other than a trap, for at most
    /// `max_steps` steps.  A trap does not end a run: the instruction that
    /// trapped is recorded with its address, and the run goes on with the
    /// next instruction.
    pub open spec fn run(self, single_step: bool, max_steps: nat) -> Ran
        decreases max_steps,
    {
        let (next, signal) = self.step();
        if !single_step && max_steps == 0 {
            Ran { state: self, signal: None, traps: Seq::empty() }
        } else {
            match signal {
                Some(Signal::Trap(reason)) => {
                    let rest = if single_step {
                        Ran { state: next, signal: None, traps: Seq::empty() }
                    } else {
                        next.run(false, (max_steps - 1) as nat)
                    };
                    Ran { traps: seq![(self.pc, reason)] + rest.traps, ..rest }
                },
                Some(_) => Ran { state: next, signal, traps: Seq::empty() },
                None => if single_step {
                    Ran { state: next, signal: None, traps: Seq::empty() }
                } else {
                    next.run(false, (max_steps - 1) as nat)
                },
            }
        }
    }

    /// The state after the breakpoint at `pc` was switched: removed if it was
    /// set, set if it was not.
    pub open spec fn toggle_breakpoint(self, pc: u32) -> CpuView {
        CpuView {
            breakpoints: if self.breakpoints.contains(pc) {
                self.breakpoints.remove(pc)
            } else {
                self.breakpoints.insert(pc)
            },
            ..self
        }
    }
}

/// The state of registers and counters after a reset.
pub open spec fn reset_view(
    mem: Map<int, u8>,
    breakpoints: Set<u32>,
    waiting: Option<u32>,
) -> CpuView {
    CpuView {
        regs: Seq::new(32, |i: int| 0u32),
        hi: 0,
        lo: 0,
        pc: 0,
        npc: 4,
        mem,
        breakpoints,
        waiting,
    }
}

/// The 32 registers that 31 stored ones stand for: register 0 is the
/// constant 0 and has no storage.
pub open spec fn register_file(registers: [u32; 31]) -> Seq<u32> {
    Seq::new(
        32,
        |i: int|
            if i == 0 {
                0u32
            } else {
                registers@[i - 1]
            },
    )
}

/// A processor.
#[derive(Debug)]
pub struct Cpu {
    /// Registers 1 to 31.
    pub registers: [u32; 31],
    pub hi: u32,
    pub lo: u32,
    pub pc: u32,
    pub npc: u32,
    pub memory: Memory,
    pub breakpoints: HashSet<u32>,
    pub waiting_breakpoint: Option<u32>,
}

impl View for Cpu {
    type V = CpuView;

    open spec fn view(&self) -> CpuView {
        CpuView {
            regs: register_file(self.registers),
            hi: self.hi,
            lo: self.lo,
            pc: self.pc,
            npc: self.npc,
            mem: self.memory@,
            breakpoints: self.breakpoints@,
            waiting: self.waiting_breakpoint,
        }
    }
}

/// `Clone::clone` of std's `HashSet`, for a set of addresses: the clone holds
/// the same addresses as the set it was made from.
#[verifier::external_body]
fn clone_breakpoints(set: &HashSet<u32>) -> (out: HashSet<u32>)
    ensures
        out@ == set@,
{
    set.clone()
}

impl Clone for Cpu {
    /// A copy of the whole state, which shares no storage with this one.
    fn clone(&self) -> (other: Cpu)
        ensures
            other@ == self@,
    {
        let other = Cpu {
            registers: self.registers,
            hi: self.hi,
            lo: self.lo,
            pc: self.pc,
            npc: self.npc,
            memory: self.memory.clone(),
            breakpoints: clone_breakpoints(&self.breakpoints),
            waiting_breakpoint: self.waiting_breakpoint,
        };
        assert(other@.regs =~= self@.regs);
        other
    }
}

/// Computing a jump target with shifts gives the index as a byte offset in
/// the region of the delay slot.
proof fn lemma_jump_target(npc: u32, index: u32)
    by (bit_vector)
    ensures
        ((npc >> 28) << 28) | ((index << 6) >> 4) == npc / 0x1000_0000 * 0x1000_0000 + index
            % 0x400_0000 * 4,
{
}

impl Cpu {
    /// A processor after reset, with an empty memory and no breakpoints.
    pub fn new() -> (cpu: Cpu)
        ensures
            cpu@ == reset_view(zero_memory(), Set::<u32>::empty(), None),
    {
        let cpu = Cpu {
            registers: [0u32; 31],
            hi: 0,
            lo: 0,
            pc: 0,
            npc: 4,
            memory: Memory::new(),
            breakpoints: HashSet::new(),
            waiting_breakpoint: None,
        };
        assert(cpu@.regs =~= Seq::new(32, |i: int| 0u32));
        cpu
    }

    /// Reads a register.  Register 0 reads as 0.
    pub fn get_register(&self, index: u32) -> (value: u32)
        requires
            index < 32,
        ensures
            value == self@.reg(index),
            index == 0 ==> value == 0,
    {
        if index == 0 {
            0
        } else {
            self.registers[(index - 1) as usize]
        }
    }

    /// Writes a register.  A write to register 0 has no effect.
    pub fn set_register(&mut self, index: u32, value: u32)
        requires
            index < 32,
        ensures
            final(self)@ == old(self)@.set_reg(index, value),
            index == 0 ==> *final(self) == *old(self),
    {
        if index != 0 {
            self.registers[(index - 1) as usize] = value;
            assert(self@.regs =~= old(self)@.regs.update(index as int, value));
        }
    }

    /// Resets registers and program counters and installs `memory`.
    /// Breakpoints stay as they are.
    pub fn reset_with_memory(&mut self, memory: Memory)
        ensures
            final(self)@ == reset_view(memory@, old(self)@.breakpoints, old(self)@.waiting),
    {
        self.registers = [0u32; 31];
        self.hi = 0;
        self.lo = 0;
        self.pc = 0;
        self.npc = 4;
        self.memory = memory;
        assert(self@.regs =~= Seq::new(32, |i: int| 0u32));
    }

    /// Moves the program counters: the delay slot becomes the current
    /// instruction, and the target that `pcop` names the one after it.  An
    /// offset has to lead to an address.
    pub fn move_pc(&mut self, pcop: PCOperation)
        requires
            old(self)@.can_move(pcop),
        ensures
            final(self)@ == old(self)@.move_pc(pcop),
    {
        let npc = self.npc;
        self.pc = npc;
        self.npc = match pcop {
            PCOperation::Offset(offset) => offset_addr(npc, offset),
            PCOperation::JumpReal(index) => index,
            PCOperation::JumpCompute(index) => {
                proof {
                    lemma_jump_target(npc, index);
                }
                let upper = (npc >> 28) << 28;
                let lower = (index << 6) >> 4;
                upper | lower
            },
        };
    }

    /// Moves the program counters as `op` says and hands `signal` on.  Where
    /// the move would leave the address space, the counters stay and the
    /// engine faults.
    fn advance(&mut self, op: PCOperation, signal: Option<Signal>) -> (raised: Option<Signal>)
        ensures
            final(self)@ == old(self)@.advance(op, signal).0,
            raised == old(self)@.advance(op, signal).1,
    {
        let movable = match op {
            PCOperation::Offset(offset) => checked_offset_addr(self.npc, offset).is_some(),
            _ => true,
        };
        if movable {
            self.move_pc(op);
            signal
        } else {
            Some(Signal::Fault(Fault::AddressOverflow))
        }
    }

    /// Executes one step: stops on a breakpoint at the program counter, or
    /// fetches, decodes and executes the instruction there and moves the
    /// program counters.  Returns the signal that ended the step, if any.
    #[verifier::spinoff_prover]
    pub fn step(&mut self) -> (signal: Option<Signal>)
        ensures
            final(self)@ == old(self)@.step().0,
            signal == old(self)@.step().1,
    {
        proof {
            reveal(CpuView::step);
        }
        let pc = self.pc;
        if self.breakpoints.contains(&pc) {
            self.transfer_bp();
            self.waiting_breakpoint = Some(pc);
            self.breakpoints.remove(&pc);
            return Some(Signal::Breakpoint(pc));
        }
        if pc > u32::MAX - 3 {
            return Some(Signal::Fault(Fault::AddressOverflow));
        }
        let word = self.memory.get_word(pc);
        let inst = Instruction::from_word(word);
        let outcome = inst.apply(self);
        self.transfer_bp();
        match outcome {
            Ok(op) => self.advance(op, None),
            Err(Signal::Trap(reason)) => self.advance(
                PCOperation::Offset(4),
                Some(Signal::Trap(reason)),
            ),
            Err(Signal::Host(request)) => self.advance(
                PCOperation::Offset(4),
                Some(Signal::Host(request)),
            ),
            Err(signal) => Some(signal),
        }
    }

    /// The instruction that the next step executes: none where the step
    /// stops on a breakpoint, or where no whole word stands at the program
    /// counter.
    pub fn pending_instruction(&self) -> (pending: Option<Instruction>)
        ensures
            pending == self@.pending(),
    {
        let pc = self.pc;
        if self.breakpoints.contains(&pc) || pc > u32::MAX - 3 {
            None
        } else {
            Some(Instruction::from_word(self.memory.get_word(pc)))
        }
    }

    /// Runs the processor.  With `single_step` it executes one step.
    /// Without, it executes steps until one raises a breakpoint, the end of
    /// the program, a request to the host or a fault, at most `max_steps` of
    /// them, and returns `None` when that many steps raised none of these.
    ///
    /// A trap does not end a run.  The processor goes on with the next
    /// instruction, and the address of the instruction that trapped and the
    /// reason are appended to `traps`, for the caller to show.
    #[verifier::spinoff_prover]
    pub fn run(
        &mut self,
        single_step: bool,
        max_steps: u64,
        traps: &mut Vec<(u32, TrapReason)>,
    ) -> (signal: Option<Signal>)
        ensures
            final(self)@ == old(self)@.run(single_step, max_steps as nat).state,
            signal == old(self)@.run(single_step, max_steps as nat).signal,
            final(traps)@ == old(traps)@ + old(self)@.run(single_step, max_steps as nat).traps,
            !(signal matches Some(Signal::Trap(_))),
    {
        let ghost start = self@;
        let ghost before = traps@;
        if single_step {
            let pc = self.pc;
            let signal = self.step();
            if let Some(Signal::Trap(reason)) = signal {
                traps.push((pc, reason));
                assert(traps@ =~= before + start.run(true, max_steps as nat).traps);
                return None;
            }
            assert(traps@ =~= before + start.run(true, max_steps as nat).traps);
            return signal;
        }
        let mut remaining = max_steps;
        assert(traps@ =~= before + Seq::<(u32, TrapReason)>::empty());
        while remaining > 0
            invariant
                !single_step,
                start == old(self)@,
                before == old(traps)@,
                start.run(false, max_steps as nat).state == self@.run(
                    false,
                    remaining as nat,
                ).state,
                start.run(false, max_steps as nat).signal == self@.run(
                    false,
                    remaining as nat,
                ).signal,
                before + start.run(false, max_steps as nat).traps == traps@ + self@.run(
                    false,
                    remaining as nat,
                ).traps,
            decreases remaining,
        {
            let pc = self.pc;
            let ghost here = self@;
            let ghost logged = traps@;
            let signal = self.step();
            match signal {
                None => {},
                Some(Signal::Trap(reason)) => {
                    traps.push((pc, reason));
                    assert(traps@ + self@.run(false, (remaining - 1) as nat).traps =~= logged
                        + here.run(false, remaining as nat).traps);
                },
                Some(other) => {
                    assert(traps@ =~= logged + here.run(false, remaining as nat).traps);
                    return Some(other);
                },
            }
            remaining -= 1;
        }
        assert(traps@ =~= traps@ + self@.run(false, 0).traps);
        None
    }

    /// Sets a breakpoint at `pc`, or removes the one that is set there.
    pub fn add_or_remove_breakpoint(&mut self, pc: u32)
        ensures
            final(self)@ == old(self)@.toggle_breakpoint(pc),
    {
        if !self.breakpoints.remove(&pc) {
            self.breakpoints.insert(pc);
        }
        assert(self@.breakpoints =~= old(self)@.toggle_breakpoint(pc).breakpoints);
    }

    /// Arms the breakpoint again on which the processor last stopped.
    pub fn transfer_bp(&mut self)
        ensures
            final(self)@ == old(self)@.rearm(),
    {
        if let Some(bp) = self.waiting_breakpoint {
            self.breakpoints.insert(bp);
            self.waiting_breakpoint = None;
        }
    }
}

/// Switching a breakpoint twice leaves the set of breakpoints as it was.
pub proof fn lemma_toggle_twice(s: CpuView, pc: u32)
    ensures
        s.toggle_breakpoint(pc).toggle_breakpoint(pc) == s,
{
    assert(s.toggle_breakpoint(pc).toggle_breakpoint(pc).breakpoints =~= s.breakpoints);
}

/// The state after `values` were written, one after the other, to register 0.
pub open spec fn writes_to_zero(s: CpuView, values: Seq<u32>) -> CpuView
    decreases values.len(),
{
    if values.len() == 0 {
        s
    } else {
        writes_to_zero(s, values.drop_last()).set_reg(0, values.last())
    }
}

/// Register 0 of a processor reads as 0, and still does after any sequence
/// of writes to it: they leave the processor as it was.
pub proof fn lemma_register_zero(cpu: Cpu, values: Seq<u32>)
    ensures
        cpu@.reg(0) == 0,
        writes_to_zero(cpu@, values) == cpu@,
        writes_to_zero(cpu@, values).reg(0) == 0,
    decreases values.len(),
{
    if values.len() > 0 {
        lemma_register_zero(cpu, values.drop_last());
    }
}

/// On a breakpoint the processor stops before the instruction: registers,
/// memory and program counters stay as they were, and the breakpoint is
/// taken out of the set until the next instruction has executed.
pub proof fn lemma_breakpoint_stops(s: CpuView)
    requires
        s.breakpoints.contains(s.pc),
    ensures
        s.step().1 == Some(Signal::Breakpoint(s.pc)),
        s.step().0 == (CpuView {
            breakpoints: s.step().0.breakpoints,
            waiting: Some(s.pc),
            ..s
        }),
        !s.step().0.breakpoints.contains(s.pc),
{
    reveal(CpuView::step);
}

/// The step after a stop on a breakpoint does not stop on it again: it
/// executes the instruction there, and has the breakpoint armed again when
/// it ends.
pub proof fn lemma_breakpoint_resumes(s: CpuView)
    requires
        s.breakpoints.contains(s.pc),
        is_address(s.pc + 3),
    ensures
        ({
            let stopped = s.step().0;
            let inst = decode_spec(word_at(s.mem, s.pc as int));
            let effect = apply_spec(inst, stopped);
            &&& stopped.pending() == Some(inst)
            &&& stopped.step() == effect.state.rearm().finish(effect.outcome)
            &&& stopped.step().0.breakpoints.contains(s.pc)
            &&& stopped.step().0.waiting is None
        }),
{
    reveal(CpuView::step);
    lemma_keeps_breakpoints(
        decode_spec(word_at(s.mem, s.pc as int)),
        s.step().0,
    );
}

/// The delay slot: after a taken branch, the instruction that follows it in
/// memory executes before control reaches the target.  Two steps from a
/// branch-on-equal of a register with itself, followed by an addition of an
/// immediate, add the immediate once and leave the program counter at the
/// target of the branch.
pub proof fn lemma_delay_slot(s: CpuView, r: u32, offset: i32, t: u32, imm: i32)
    requires
        r < 32,
        0 < t < 32,
        s.regs.len() == 32,
        is_address(s.pc + 3),
        is_address(s.npc + 3),
        !s.breakpoints.contains(s.pc),
        !s.breakpoints.contains(s.npc),
        s.waiting != Some(s.npc),
        decode_spec(word_at(s.mem, s.pc as int)) == Instruction::BEQ(r, r, offset),
        decode_spec(word_at(s.mem, s.npc as int)) == Instruction::ADDI(t, t, imm),
        fits_i32(signed(s.reg(t)) + imm),
        is_address(s.npc + offset * 4),
        is_address(s.npc + offset * 4 + 4),
    ensures
        ({
            let first = s.step();
            let second = first.0.step();
            &&& first.1 is None
            &&& first.0.pc == s.npc
            &&& first.0.regs == s.regs
            &&& second.1 is None
            &&& second.0.pc == s.npc + offset * 4
            &&& second.0.reg(t) == wrap32(signed(s.reg(t)) + imm)
        }),
{
    reveal(CpuView::step);
    lemma_decode_wf(word_at(s.mem, s.pc as int));
}

/// What follows an instruction keeps aligned program counters aligned,
/// unless it is a jump to an address that is not aligned.
pub proof fn lemma_finish_keeps_alignment(s: CpuView, outcome: Result<PCOperation, Signal>)
    requires
        s.pc % 4 == 0,
        s.npc % 4 == 0,
        outcome matches Ok(PCOperation::Offset(offset)) ==> offset % 4 == 0,
    ensures
        s.finish(outcome).0.pc % 4 == 0,
        s.finish(outcome).0.npc % 4 == 0 || (outcome matches Ok(PCOperation::JumpReal(target))
            && target % 4 != 0),
{
}

/// Aligned program counters stay aligned, unless a jump through a register
/// leads to an address that is not aligned.
pub proof fn lemma_step_keeps_alignment(s: CpuView)
    requires
        s.pc % 4 == 0,
        s.npc % 4 == 0,
    ensures
        s.step().0.pc % 4 == 0,
        s.step().0.npc % 4 == 0 || (s.pending() matches Some(inst) && apply_spec(
            inst,
            s,
        ).outcome matches Ok(PCOperation::JumpReal(target)) && target % 4 != 0),
{
    reveal(CpuView::step);
    if let Some(inst) = s.pending() {
        if !s.breakpoints.contains(s.pc) {
            let effect = apply_spec(inst, s);
            lemma_decode_wf(word_at(s.mem, s.pc as int));
            lemma_keeps_breakpoints(inst, s);
            lemma_branch_offsets(inst, s);
            lemma_finish_keeps_alignment(effect.state.rearm(), effect.outcome);
        }
    }
}

/// A step ends the program only where the program has ended: where the
/// instruction at the program counter is a request to exit.
pub proof fn lemma_exit_means_halted(s: CpuView)
    requires
        s.step().1 == Some(Signal::Exit),
    ensures
        s.halted(),
        s.step().0 == s.rearm(),
{
    reveal(CpuView::step);
    let inst = decode_spec(word_at(s.mem, s.pc as int));
    lemma_exit_is_requested(inst, s);
}

/// A processor whose program has ended stays as it is: a step of it changes
/// neither registers nor memory nor program counters, and ends with the
/// signal that the program has ended, or on a breakpoint at that place.
pub proof fn lemma_halted_stays_halted(s: CpuView)
    requires
        s.halted(),
    ensures
        s.step().1 == Some(Signal::Exit) || s.step().1 == Some(Signal::Breakpoint(s.pc)),
        s.step().0.halted(),
        s.step().0 == (CpuView {
            breakpoints: s.step().0.breakpoints,
            waiting: s.step().0.waiting,
            ..s
        }),
{
    reveal(CpuView::step);
}

/// No run ends with a trap: a run ends on a breakpoint, with the end of the
/// program, with a request to the host or with a fault, or it ends with no
/// signal.
pub proof fn lemma_run_ends_with_no_trap(s: CpuView, single_step: bool, max_steps: nat)
    ensures
        !(s.run(single_step, max_steps).signal matches Some(Signal::Trap(_))),
    decreases max_steps,
{
    if !single_step && max_steps > 0 {
        lemma_run_ends_with_no_trap(s.step().0, false, (max_steps - 1) as nat);
    }
}

/// A free run goes on after a trap: where the first step traps, the run is
/// the run from the state after that step, with the trap recorded before
/// the traps of the rest.
pub proof fn lemma_run_goes_on_after_trap(s: CpuView, max_steps: nat, reason: TrapReason)
    requires
        max_steps > 0,
        s.step().1 == Some(Signal::Trap(reason)),
    ensures
        s.run(false, max_steps).state == s.step().0.run(false, (max_steps - 1) as nat).state,
        s.run(false, max_steps).signal == s.step().0.run(false, (max_steps - 1) as nat).signal,
        s.run(false, max_steps).traps == seq![(s.pc, reason)] + s.step().0.run(
            false,
            (max_steps - 1) as nat,
        ).traps,
{
}

/// A free run may be made in parts: where a run of `n` steps raised no
/// signal, a run of `m` more steps ends as one run of `n + m` steps does,
/// and the traps of the two parts are those of the one run.
pub proof fn lemma_run_in_parts(s: CpuView, n: nat, m: nat)
    requires
        s.run(false, n).signal is None,
    ensures
        s.run(false, n).state.run(false, m).state == s.run(false, n + m).state,
        s.run(false, n).state.run(false, m).signal == s.run(false, n + m).signal,
        s.run(false, n).traps + s.run(false, n).state.run(false, m).traps == s.run(
            false,
            n + m,
        ).traps,
    decreases n,
{
    if n > 0 {
        let next = s.step().0;
        lemma_run_in_parts(next, (n - 1) as nat, m);
        assert(s.run(false, n + m).state == next.run(false, (n + m - 1) as nat).state);
        assert(s.run(false, n).traps + s.run(false, n).state.run(false, m).traps =~= s.run(
            false,
            n + m,
        ).traps);
    } else {
        assert(s.run(false, n).traps + s.run(false, n).state.run(false, m).traps =~= s.run(
            false,
            n + m,
        ).traps);
    }
}

} // verus!
