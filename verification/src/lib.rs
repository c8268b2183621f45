//! A cycle-accurate simulator of a 32-bit machine with a five-stage pipeline,
//! two-level page tables and a four-way set-associative cache, with the
//! assembler of its instruction set.
//!
//! [`machine::Machine`] is the state of the simulator as a mathematical value,
//! with one cycle as a function from state to state;
//! [`simulator::Simulator`] is the simulator that runs, each of its
//! operations proved to do what the function says.

pub mod assembler;
pub mod backing;
pub mod cpu;
pub mod disassembly;
pub mod laws;
pub mod machine;
pub mod mmu;
pub mod pipeline;
pub mod simulator;

use vstd::prelude::*;
use crate::mmu::VAddr;

verus! {

/// Byte `i` of `bytes`; zero past its end.
pub open spec fn byte_at(bytes: Seq<u8>, i: int) -> int {
    if 0 <= i < bytes.len() {
        bytes[i] as int
    } else {
        0
    }
}

/// Up to four bytes read as a little-endian number. Missing high bytes are zero.
pub open spec fn le_value(bytes: Seq<u8>) -> u32 {
    (byte_at(bytes, 0) + byte_at(bytes, 1) * 0x100 + byte_at(bytes, 2) * 0x1_0000 + byte_at(
        bytes,
        3,
    ) * 0x100_0000) as u32
}

/// The low `n` bytes of `val`, lowest first.
pub open spec fn le_seq(val: u32, n: nat) -> Seq<u8> {
    seq![
        (val & 0xff) as u8,
        ((val >> 8) & 0xff) as u8,
        ((val >> 16) & 0xff) as u8,
        ((val >> 24) & 0xff) as u8,
    ].take(if n <= 4 { n as int } else { 4 })
}

proof fn lemma_le_shifts(b0: u32, b1: u32, b2: u32, b3: u32)
    by (bit_vector)
    requires
        b0 < 256,
        b1 < 256,
        b2 < 256,
        b3 < 256,
    ensures
        b0 << 0 == b0,
        b1 << 8 == b1 * 0x100,
        b2 << 16 == b2 * 0x1_0000,
        b3 << 24 == b3 * 0x100_0000,
{
}

proof fn lemma_le_bytes(val: u32)
    by (bit_vector)
    ensures
        (val & 0xff) + ((val >> 8) & 0xff) * 0x100 + ((val >> 16) & 0xff) * 0x1_0000 + ((val >> 24)
            & 0xff) * 0x100_0000 == val,
        val & 0xff < 256,
        (val >> 8) & 0xff < 256,
        (val >> 16) & 0xff < 256,
        (val >> 24) & 0xff < 256,
        (val & 0xff) as u8 == val & 0xff,
        ((val >> 8) & 0xff) as u8 == (val >> 8) & 0xff,
        ((val >> 16) & 0xff) as u8 == (val >> 16) & 0xff,
        ((val >> 24) & 0xff) as u8 == (val >> 24) & 0xff,
{
}

/// The four bytes of a number, read back, give the number.
pub proof fn lemma_le_roundtrip(val: u32)
    ensures
        le_seq(val, 4).len() == 4,
        le_value(le_seq(val, 4)) == val,
{
    lemma_le_bytes(val);
}

/// Transform `bytes` to a little-endian u32 integer
pub fn as_u32_le(bytes: &Vec<u8>) -> (r: u32)
    requires
        bytes.len() == 4,
    ensures
        r == le_value(bytes@),
{
    proof {
        lemma_le_shifts(bytes[0] as u32, bytes[1] as u32, bytes[2] as u32, bytes[3] as u32);
    }
    ((bytes[0] as u32) << 0) + ((bytes[1] as u32) << 8) + ((bytes[2] as u32) << 16) + ((
    bytes[3] as u32) << 24)
}

/// Transform `bytes` to a little-endian u16 integer
pub fn as_u16_le(bytes: &Vec<u8>) -> (r: u16)
    requires
        bytes.len() == 2,
    ensures
        r == le_value(bytes@),
{
    proof {
        lemma_le_shifts(bytes[0] as u32, bytes[1] as u32, 0, 0);
    }
    let wide = ((bytes[0] as u32) << 0) + ((bytes[1] as u32) << 8);
    wide as u16
}

/// Up to four bytes read as a little-endian number, zero-extended to 32 bits.
pub fn le_word(bytes: &Vec<u8>) -> (r: u32)
    requires
        bytes.len() <= 4,
    ensures
        r == le_value(bytes@),
{
    let n = bytes.len();
    let b0: u32 = if n > 0 { bytes[0] as u32 } else { 0 };
    let b1: u32 = if n > 1 { bytes[1] as u32 } else { 0 };
    let b2: u32 = if n > 2 { bytes[2] as u32 } else { 0 };
    let b3: u32 = if n > 3 { bytes[3] as u32 } else { 0 };
    proof {
        lemma_le_shifts(b0, b1, b2, b3);
    }
    b0 + (b1 << 8) + (b2 << 16) + (b3 << 24)
}

/// The low `n` bytes of `val` in little-endian order.
pub fn le_bytes(val: u32, n: usize) -> (bytes: Vec<u8>)
    requires
        n <= 4,
    ensures
        bytes@ == le_seq(val, n as nat),
{
    proof {
        lemma_le_bytes(val);
    }
    let mut bytes: Vec<u8> = Vec::new();
    if n > 0 {
        bytes.push((val & 0xff) as u8);
    }
    if n > 1 {
        bytes.push(((val >> 8) & 0xff) as u8);
    }
    if n > 2 {
        bytes.push(((val >> 16) & 0xff) as u8);
    }
    if n > 3 {
        bytes.push(((val >> 24) & 0xff) as u8);
    }
    assert(bytes@ =~= le_seq(val, n as nat));
    bytes
}

/// First address of the text buffer of the screen.
pub const VGA_BASE: u32 = 0x1000;

/// Number of cells on the screen: 8 lines of 30 columns.
pub const VGA_CELLS: usize = 240;

/// What the screen shows for a byte: printable ASCII and the newline as
/// they are, every other byte as `0xfe`.
pub open spec fn glyph(byte: u8) -> u8 {
    if (0x20 <= byte <= 0x7e) || byte == 0x0a {
        byte
    } else {
        0xfe
    }
}

/// The screen after `data` was written at cell `off`. Cells past the end of
/// the screen do not exist, and what is written there is not shown.
pub open spec fn painted(screen: Seq<u8>, off: int, data: Seq<u8>) -> Seq<u8> {
    Seq::new(
        screen.len(),
        |i: int|
            if off <= i < off + data.len() {
                glyph(data[i - off])
            } else {
                screen[i]
            },
    )
}

/// The screen at start: eight lines of 29 spaces, each closed by a newline.
pub open spec fn blank_screen() -> Seq<u8> {
    Seq::new(
        VGA_CELLS as nat,
        |i: int|
            if i % 30 == 29 {
                0x0au8
            } else {
                0x20u8
            },
    )
}

/// The text screen that the simulated program writes to. It holds the
/// bytes that the screen shows, cell by cell.
#[derive(Clone, Debug)]
pub struct VgaDriver {
    pub screen: Vec<u8>,
}

impl VgaDriver {
    /// The screen has all of its cells.
    pub open spec fn wf(&self) -> bool {
        self.screen@.len() == VGA_CELLS
    }

    pub fn new() -> (vga: Self)
        ensures
            vga.wf(),
            vga.screen@ == blank_screen(),
    {
        let mut screen: Vec<u8> = Vec::new();

        // Initialize empty screen
        let mut i: usize = 0;
        while i < VGA_CELLS
            invariant
                i <= VGA_CELLS,
                screen@.len() == i,
                forall|j: int| 0 <= j < i ==> screen@[j] == blank_screen()[j],
            decreases VGA_CELLS - i,
        {
            if i % 30 == 29 {
                screen.push(0x0a);
            } else {
                screen.push(0x20);
            }
            i += 1;
        }
        assert(screen@ =~= blank_screen());
        Self { screen }
    }

    /// Write a byte to the cell of the buffer denoted by `addr`
    fn write_byte(&mut self, byte: u8, addr: VAddr)
        requires
            old(self).wf(),
            addr.0 >= VGA_BASE,
        ensures
            final(self).wf(),
            final(self).screen@ == if addr.0 - VGA_BASE < VGA_CELLS {
                old(self).screen@.update(addr.0 - VGA_BASE, byte)
            } else {
                old(self).screen@
            },
    {
        let index = self.addr_to_vga_index(addr) as usize;
        if index < VGA_CELLS {
            self.screen[index] = byte;
        }
    }

    /// Write `output` to the screen, from the cell of address `addr` on.
    /// `addr` is an address in the vga memory region (0x1000-0x10f0).
    pub fn write(&mut self, addr: VAddr, output: &Vec<u8>)
        requires
            old(self).wf(),
            addr.0 >= VGA_BASE,
        ensures
            final(self).wf(),
            final(self).screen@ == painted(old(self).screen@, addr.0 - VGA_BASE, output@),
    {
        let mut addr_cpy = addr;
        let room = u32::MAX - addr.0;
        let mut i: usize = 0;
        while i < output.len() && i <= room as usize
            invariant
                i <= output.len(),
                self.wf(),
                addr.0 >= VGA_BASE,
                room == u32::MAX - addr.0,
                i <= room ==> addr_cpy.0 == addr.0 + i,
                i > room ==> i == room + 1,
                self.screen@ == painted(old(self).screen@, addr.0 - VGA_BASE, output@.take(i as int)),
            decreases output.len() - i,
        {
            let byte = output[i];
            match byte {
                // printable ASCII byte or newline
                0x20..=0x7e | 0x0a => self.write_byte(byte, addr_cpy),
                // not part of printable ASCII range
                _ => self.write_byte(0xfe, addr_cpy),
            }
            if i < room as usize {
                addr_cpy.0 += 1;
            }
            i += 1;
            assert(self.screen@ =~= painted(
                old(self).screen@,
                addr.0 - VGA_BASE,
                output@.take(i as int),
            ));
        }
        assert(self.screen@ =~= painted(old(self).screen@, addr.0 - VGA_BASE, output@));
    }

    /// Transforms an address to a vga-buffer index
    fn addr_to_vga_index(&self, addr: VAddr) -> (index: u32)
        requires
            addr.0 >= VGA_BASE,
        ensures
            index == addr.0 - VGA_BASE,
    {
        let index = addr.0 - 0x1000;
        return index;
    }
}

/// The number after `n`, as far as a counter can count.
pub open spec fn bump(n: u64) -> u64 {
    n.saturating_add(1)
}

/// Used to track some statistics about the simulation run
#[derive(Debug, Clone, Copy, PartialEq, Eq, Structural)]
pub struct Stats {
    pub cache_hits: u64,
    pub cache_misses: u64,
    pub mem_clock: u64,
    pub control_instrs: u64,
    pub load_instrs: u64,
    pub store_instrs: u64,
    pub arithmetic_instrs: u64,
    pub total_instrs: u64,
}

impl Stats {
    /// Every counter at zero.
    pub open spec fn zero() -> Stats {
        Stats {
            cache_hits: 0,
            cache_misses: 0,
            mem_clock: 0,
            control_instrs: 0,
            load_instrs: 0,
            store_instrs: 0,
            arithmetic_instrs: 0,
            total_instrs: 0,
        }
    }
}

impl Default for Stats {
    fn default() -> (stats: Self)
        ensures
            stats == Stats::zero(),
    {
        Stats {
            cache_hits: 0,
            cache_misses: 0,
            mem_clock: 0,
            control_instrs: 0,
            load_instrs: 0,
            store_instrs: 0,
            arithmetic_instrs: 0,
            total_instrs: 0,
        }
    }
}

} // verus!
