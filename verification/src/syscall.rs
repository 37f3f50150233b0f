//! The services that a guest program asks of the host with `SYSCALL`.
//!
//! Register `$2` holds the number of the service, `$4` and `$5` its
//! arguments.  The processor performs no input or output: it names the
//! service in a [`HostRequest`], and the host hands what it read back through
//! [`read_int`] and [`read_string`].

use crate::cpu::{Cpu, CpuView, Fault, HostRequest, Signal};
use crate::memory::address_space;
use crate::text::{parse_decimal, parse_decimal_spec, push_signed_decimal, signed_decimal};
use crate::utils::{i2u, signed, u2i, wrap32};
use vstd::prelude::*;

verus! {

/// The signal that a `SYSCALL` raises in state `s`.
pub open spec fn syscall_spec(s: CpuView) -> Signal {
    let number = s.reg(2);
    if number == 1 {
        Signal::Host(HostRequest::PrintInt(signed(s.reg(4)) as i32))
    } else if number == 4 {
        Signal::Host(HostRequest::PrintString(s.reg(4)))
    } else if number == 5 {
        Signal::Host(HostRequest::ReadInt)
    } else if number == 8 {
        Signal::Host(HostRequest::ReadString(s.reg(4), s.reg(5)))
    } else if number == 10 {
        Signal::Exit
    } else {
        Signal::Fault(Fault::UnknownSyscall(number))
    }
}

/// Interprets the service number in `$2`: names the service that the host has
/// to perform, ends the program, or reports a number that names no service.
pub fn call_syscall(cpu: &Cpu) -> (signal: Signal)
    ensures
        signal == syscall_spec(cpu@),
{
    let syscall_value = cpu.get_register(2);
    match syscall_value {
        1 => Signal::Host(HostRequest::PrintInt(u2i(cpu.get_register(4)))),
        4 => Signal::Host(HostRequest::PrintString(cpu.get_register(4))),
        5 => Signal::Host(HostRequest::ReadInt),
        8 => Signal::Host(HostRequest::ReadString(cpu.get_register(4), cpu.get_register(5))),
        10 => Signal::Exit,
        _ => Signal::Fault(Fault::UnknownSyscall(syscall_value)),
    }
}

/// The text that the program asks to print for an integer: the signed reading
/// of `$4` in decimal.
pub fn print_int(cpu: &Cpu) -> (text: String)
    ensures
        text@ == signed_decimal(signed(cpu@.reg(4))),
{
    let mut text = String::new();
    push_signed_decimal(&mut text, u2i(cpu.get_register(4)));
    assert(text@ =~= signed_decimal(signed(cpu@.reg(4))));
    text
}

/// The text that starts at `addr`: the bytes from `addr` up to the first zero
/// byte, or up to the end of the address space where there is none.
pub open spec fn text_at(mem: Map<int, u8>, addr: int) -> Seq<u8>
    decreases address_space() - addr,
{
    if addr < 0 || addr >= address_space() || mem[addr] == 0 {
        Seq::empty()
    } else {
        seq![mem[addr]] + text_at(mem, addr + 1)
    }
}

/// The text at `addr` holds the bytes of memory from `addr` on, none of them
/// zero, and ends before the first zero byte or with the address space.
pub proof fn lemma_text_at(mem: Map<int, u8>, addr: int)
    requires
        0 <= addr < address_space(),
    ensures
        addr + text_at(mem, addr).len() <= address_space(),
        forall|i: int|
            0 <= i < text_at(mem, addr).len() ==> text_at(mem, addr)[i] == mem[addr + i]
                && mem[addr + i] != 0,
        addr + text_at(mem, addr).len() < address_space() ==> mem[addr + text_at(
            mem,
            addr,
        ).len()] == 0,
    decreases address_space() - addr,
{
    if mem[addr] != 0 && addr + 1 < address_space() {
        lemma_text_at(mem, addr + 1);
        let rest = text_at(mem, addr + 1);
        assert forall|i: int| 0 <= i < text_at(mem, addr).len() implies text_at(mem, addr)[i]
            == mem[addr + i] && mem[addr + i] != 0 by {
            if i > 0 {
                assert(text_at(mem, addr)[i] == rest[i - 1]);
            }
        }
    } else if mem[addr] != 0 {
        assert(text_at(mem, addr + 1) =~= Seq::<u8>::empty());
    }
}

/// The text that the program asks to print: the bytes from the address in
/// `$4` up to the first zero byte.  The scan never leaves the address space:
/// where no zero byte follows, the text ends with the last address.
pub fn print_string(cpu: &Cpu) -> (text: Vec<u8>)
    ensures
        text@ == text_at(cpu@.mem, cpu@.reg(4) as int),
        cpu@.reg(4) + text@.len() <= address_space(),
{
    let start = cpu.get_register(4);
    let mut addr = start;
    let mut buff: Vec<u8> = Vec::new();
    proof {
        lemma_text_at(cpu@.mem, start as int);
    }
    loop
        invariant_except_break
            start <= addr,
            buff@.len() == addr - start,
            text_at(cpu@.mem, start as int) == buff@ + text_at(cpu@.mem, addr as int),
        ensures
            buff@ == text_at(cpu@.mem, start as int),
        decreases address_space() - addr,
    {
        let byte = cpu.memory.get_byte(addr);
        if byte == 0 {
            assert(buff@ + Seq::<u8>::empty() =~= buff@);
            break ;
        }
        let ghost before = buff@;
        buff.push(byte);
        assert(before + (seq![byte] + text_at(cpu@.mem, addr + 1)) =~= buff@ + text_at(
            cpu@.mem,
            addr + 1,
        ));
        if addr == u32::MAX {
            assert(buff@ + Seq::<u8>::empty() =~= buff@);
            break ;
        }
        addr += 1;
    }
    buff
}

/// Completes a request to read an integer: reads `line` as a signed decimal
/// integer and stores it in `$2`.  A line that holds no such integer leaves
/// the processor as it is.
pub fn read_int(cpu: &mut Cpu, line: &[u8]) -> (value: Option<i32>)
    ensures
        value == parse_decimal_spec(line@),
        value matches Some(v) ==> final(cpu)@ == old(cpu)@.set_reg(2, wrap32(v as int)),
        value is None ==> final(cpu)@ == old(cpu)@,
{
    let value = parse_decimal(line);
    if let Some(v) = value {
        cpu.set_register(2, i2u(v));
    }
    value
}

/// The number of bytes that a read of text takes from `input`: those before
/// the first newline, and not more than `limit`.
pub open spec fn line_length(input: Seq<u8>, limit: int) -> int {
    line_end(input, 0, limit)
}

/// The first position from `from` on at which a read of text stops: the end
/// of the input, position `limit`, or a newline.
pub open spec fn line_end(input: Seq<u8>, from: int, limit: int) -> int
    decreases input.len() - from,
{
    if from < input.len() && from < limit && input[from] != 10 {
        line_end(input, from + 1, limit)
    } else {
        from
    }
}

/// The memory after `text` and a terminating zero byte are stored from `addr` on.
pub open spec fn store_text(mem: Map<int, u8>, addr: int, text: Seq<u8>) -> Map<int, u8> {
    Map::new(
        |a: int| mem.dom().contains(a),
        |a: int|
            if addr <= a < addr + text.len() {
                text[a - addr]
            } else if a == addr + text.len() {
                0u8
            } else {
                mem[a]
            },
    )
}

/// Completes a request to read text: stores the bytes of `input` before its
/// first newline, at most `$5 - 1` of them, from the address in `$4` on, and
/// a zero byte after them.  Returns the number of bytes taken from `input`.
///
/// Where `$5` is zero the buffer has no room, and nothing is stored.  Where
/// the text would not end inside the address space, nothing is stored and
/// the engine faults.
pub fn read_string(cpu: &mut Cpu, input: &[u8]) -> (stored: Result<u32, Fault>)
    ensures
        ({
            let s = old(cpu)@;
            let count = line_length(input@, s.reg(5) - 1);
            if s.reg(5) == 0 {
                stored == Ok::<u32, Fault>(0) && final(cpu)@ == s
            } else if s.reg(4) + count >= address_space() {
                stored == Err::<u32, Fault>(Fault::AddressOverflow) && final(cpu)@ == s
            } else {
                stored == Ok::<u32, Fault>(count as u32) && final(cpu)@ == s.set_mem(
                    store_text(s.mem, s.reg(4) as int, input@.subrange(0, count)),
                )
            }
        }),
{
    let start = cpu.get_register(4);
    let len = cpu.get_register(5);
    if len == 0 {
        return Ok(0);
    }
    let limit = len - 1;
    let mut count: u32 = 0;
    while (count as usize) < input.len() && count < limit && input[count as usize] != 10u8
        invariant
            count <= limit,
            count <= input@.len(),
            line_end(input@, count as int, limit as int) == line_length(input@, limit as int),
        decreases limit - count,
    {
        count += 1;
    }
    if count > u32::MAX - start {
        return Err(Fault::AddressOverflow);
    }
    let mut i: u32 = 0;
    while i < count
        invariant
            i <= count,
            count <= input@.len(),
            start + count < address_space(),
            cpu@ == old(cpu)@.set_mem(cpu@.mem),
            cpu@.mem.dom() == old(cpu)@.mem.dom(),
            forall|a: int|
                #![auto]
                cpu@.mem.dom().contains(a) ==> cpu@.mem[a] == if start <= a < start + i {
                    input@[a - start]
                } else {
                    old(cpu)@.mem[a]
                },
        decreases count - i,
    {
        cpu.memory.set_byte(start + i, input[i as usize]);
        i += 1;
    }
    cpu.memory.set_byte(start + count, 0);
    proof {
        let s = old(cpu)@;
        assert(cpu@.mem =~= store_text(s.mem, start as int, input@.subrange(0, count as int)));
    }
    Ok(count)
}

} // verus!
