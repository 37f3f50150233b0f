//! The loader: checks a parsed executable and builds the memory image and
//! the initial state of the processor from it.

use crate::cpu::{reset_view, Cpu, CpuView};
use crate::memory::{address_space, zero_memory, Memory};
use vstd::prelude::*;

verus! {

/// The type tag of an executable file.
pub const ET_EXEC: u16 = 2;

/// The machine tag of the MIPS architecture.
pub const EM_MIPS: u16 = 8;

/// The type tag of a part of the file that is loaded into memory.
pub const PT_LOAD: u32 = 1;

/// One part of a parsed executable.
#[derive(Debug)]
pub struct Segment {
    /// The type tag of the part.
    pub kind: u32,
    /// The address at which its first byte is to stand.
    pub addr: u64,
    /// Its bytes.
    pub data: Vec<u8>,
}

/// A parsed executable, as far as the loader reads it.
#[derive(Debug)]
pub struct ElfFile {
    /// The type tag of the file.
    pub elf_type: u16,
    /// The machine tag of the file.
    pub machine: u16,
    /// The address of the first instruction.
    pub entry: u64,
    pub segments: Vec<Segment>,
}

/// Why a file was not loaded.
#[derive(Debug, Clone, Copy, PartialEq, Eq, Structural)]
pub enum LoadError {
    /// The file is no executable.
    NotExecutable,
    /// The file is not for the MIPS architecture.
    NotMips,
    /// The segment with this index reaches beyond the last address.
    SegmentTooBig(usize),
    /// The entry point has no instruction after it in the address space.
    EntryOutOfRange,
}

/// The memory after `bytes` are stored from `addr` on.
pub open spec fn store_bytes(mem: Map<int, u8>, addr: int, bytes: Seq<u8>) -> Map<int, u8> {
    Map::new(
        |a: int| mem.dom().contains(a),
        |a: int|
            if addr <= a < addr + bytes.len() {
                bytes[a - addr]
            } else {
                mem[a]
            },
    )
}

impl Segment {
    /// Whether the segment is one that is loaded into memory.
    pub open spec fn loadable(self) -> bool {
        self.kind == PT_LOAD
    }

    /// Whether the segment ends inside the address space: none of its bytes
    /// stands beyond the last address.
    pub open spec fn fits(self) -> bool {
        self.addr + self.data@.len() <= address_space()
    }
}

/// Whether every loadable segment among the first `n` ends inside the
/// address space.
pub open spec fn segments_fit(segments: Seq<Segment>, n: int) -> bool {
    forall|i: int| 0 <= i < n ==> (#[trigger] segments[i]).loadable() ==> segments[i].fits()
}

/// The memory after the loadable segments among the first `n` are copied
/// into it, in the order of the file.
pub open spec fn load_segments(mem: Map<int, u8>, segments: Seq<Segment>, n: int) -> Map<int, u8>
    decreases n,
{
    if n <= 0 {
        mem
    } else {
        let before = load_segments(mem, segments, n - 1);
        let segment = segments[n - 1];
        if segment.loadable() {
            store_bytes(before, segment.addr as int, segment.data@)
        } else {
            before
        }
    }
}

impl ElfFile {
    /// The entry point, forced to the alignment of instructions.
    pub open spec fn aligned_entry(self) -> int {
        self.entry / 4 * 4
    }

    /// Why the file cannot be loaded, if it cannot.  The tags are checked
    /// before the segments, and the segments before the entry point.
    pub open spec fn load_error(self) -> Option<LoadError> {
        if self.elf_type != ET_EXEC {
            Some(LoadError::NotExecutable)
        } else if self.machine != EM_MIPS {
            Some(LoadError::NotMips)
        } else if !segments_fit(self.segments@, self.segments@.len() as int) {
            Some(LoadError::SegmentTooBig(self.first_oversized() as usize))
        } else if self.aligned_entry() + 4 >= address_space() {
            Some(LoadError::EntryOutOfRange)
        } else {
            None
        }
    }

    /// The index of the first loadable segment that does not end inside the
    /// address space.
    pub open spec fn first_oversized(self) -> int {
        choose|i: int|
            0 <= i < self.segments@.len() && self.segments@[i].loadable()
                && !self.segments@[i].fits() && segments_fit(self.segments@, i)
    }

    /// The memory image of the file.
    pub open spec fn image(self) -> Map<int, u8> {
        load_segments(zero_memory(), self.segments@, self.segments@.len() as int)
    }
}

/// Copies the bytes of one segment into memory.
fn copy_segment(memory: &mut Memory, segment: &Segment)
    requires
        segment.fits(),
    ensures
        final(memory)@ == store_bytes(old(memory)@, segment.addr as int, segment.data@),
{
    let base = segment.addr;
    let size = segment.data.len();
    let mut i: usize = 0;
    while i < size
        invariant
            i <= size == segment.data@.len(),
            base == segment.addr,
            segment.fits(),
            memory@ == store_bytes(old(memory)@, base as int, segment.data@.subrange(0, i as int)),
        decreases size - i,
    {
        let addr = base + i as u64;
        memory.set_byte(addr as u32, segment.data[i]);
        i += 1;
        assert(memory@ =~= store_bytes(
            old(memory)@,
            base as int,
            segment.data@.subrange(0, i as int),
        ));
    }
    assert(memory@ =~= store_bytes(
        old(memory)@,
        base as int,
        segment.data@.subrange(0, size as int),
    ));
    assert(segment.data@.subrange(0, size as int) =~= segment.data@);
}

impl Cpu {
    /// Loads a parsed executable: checks its tags, copies its loadable
    /// segments into a fresh memory, resets the registers and sets the
    /// program counter to the aligned entry point.  A file that is refused
    /// leaves the processor as it is.
    pub fn load_elf(&mut self, file: ElfFile) -> (loaded: Result<(), LoadError>)
        ensures
            match file.load_error() {
                Some(error) => loaded == Err::<(), LoadError>(error) && final(self)@ == old(self)@,
                None => loaded == Ok::<(), LoadError>(()) && final(self)@ == (CpuView {
                    pc: file.aligned_entry() as u32,
                    npc: (file.aligned_entry() + 4) as u32,
                    ..reset_view(file.image(), old(self)@.breakpoints, old(self)@.waiting)
                }),
            },
    {
        if file.elf_type != ET_EXEC {
            return Err(LoadError::NotExecutable);
        }
        if file.machine != EM_MIPS {
            return Err(LoadError::NotMips);
        }
        let mut memory = Memory::new();
        let count = file.segments.len();
        let mut n: usize = 0;
        while n < count
            invariant
                n <= count == file.segments@.len(),
                file.elf_type == ET_EXEC,
                file.machine == EM_MIPS,
                segments_fit(file.segments@, n as int),
                memory@ == load_segments(zero_memory(), file.segments@, n as int),
            decreases count - n,
        {
            let segment = &file.segments[n];
            if segment.kind == PT_LOAD {
                if segment.addr > 0x1_0000_0000 || segment.data.len() as u64 > 0x1_0000_0000
                    - segment.addr {
                    proof {
                        let i = n as int;
                        assert(0 <= i < file.segments@.len() && file.segments@[i].loadable()
                            && !file.segments@[i].fits() && segments_fit(file.segments@, i));
                        let chosen = file.first_oversized();
                        assert(chosen == i) by {
                            if chosen < i {
                                assert(file.segments@[chosen].loadable());
                            } else if chosen > i {
                                assert(file.segments@[i].loadable());
                            }
                        }
                    }
                    return Err(LoadError::SegmentTooBig(n));
                }
                copy_segment(&mut memory, segment);
            }
            n += 1;
        }
        let entry = (file.entry / 4) * 4;
        if entry >= u32::MAX as u64 - 3 {
            return Err(LoadError::EntryOutOfRange);
        }
        self.reset_with_memory(memory);
        self.pc = entry as u32;
        self.npc = self.pc + 4;
        Ok(())
    }
}

} // verus!
