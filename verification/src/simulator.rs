use vstd::prelude::*;
use vstd::slice::slice_subrange;
use rustc_hash::FxHashMap;
use crate::backing::{fx_contains, fx_new, random_u32};
use crate::cpu::{decode_instr, spec_decode, Instr, InstrCode, Register, NUM_REGS};
use crate::laws::same_work;
use crate::machine::{
    alu, alu_imm, chunk_len, clash, storable, store_chunks, taken, Machine, INT0_VECTOR,
    MMIO_BASE, MMIO_CLOCK, MMIO_RANDOM, MMIO_SHUTDOWN, VGA_END,
};
use crate::mmu::{aligned, zero_bytes, Mmu, Perms, VAddr, L1_CACHE_STALL, RAM_STALL};
use crate::pipeline::{Pipeline, Slot, NUM_SLOTS};
use crate::{as_u32_le, bump, le_bytes, le_value, le_word, Stats, VgaDriver, VGA_BASE};

verus! {

/// Describes errors that can occur during simulation
#[derive(Debug, Copy, Clone, PartialEq, Eq, Structural)]
pub enum SimErr {
    /// The page table has no table for the address
    AddrTranslation,
    /// The mapping lacks a requested right
    Permission,
    /// A section of the source is malformed
    LoadErr,
    /// The word encodes no instruction, or the source line is no instruction
    InstrDecode,
    /// The simulated program asked to stop
    Shutdown,
    /// The page is mapped already, or no physical page is left to map it to
    MemOverlap,
    /// An access to memory is under way
    MemStall,
    /// An instruction divides by zero
    DivByZero,
    /// The simulated program accessed memory at an address that is no
    /// multiple of what the access asks for
    Misaligned,
}

/// Simulator struct that holds all state relevant for the simulation
#[derive(Debug)]
pub struct Simulator {
    /// Memory management unit. This is responsible for managing/traversing page tables, using
    /// caches, performing memory reads/writes, etc
    pub mmu: Mmu,
    /// The execution pipeline
    pub pipeline: Pipeline,
    /// General purpose registers used by this isa
    pub gen_regs: [u32; NUM_REGS],
    /// Clock-counter at current point in simulation
    pub clock: u32,
    /// Program-counter at current point in simulation
    pub pc: VAddr,
    /// Current memory location being looked at by an observer
    pub cur_mem: VAddr,
    /// Current cache-set that an observer looks at
    pub cur_cache_set: (usize, usize),
    /// Indicates wether the simulator is running or not. Turned off when target uses exit-mmio
    pub online: bool,
    /// Screen that the executed code can write to
    pub vga: VgaDriver,
    /// Indicates wheter the simulation runs with instruction pipelining on or off
    pub pipelining_enabled: bool,
    /// Mapping of addresses that have a breakpoint set for them
    pub breakpoints: FxHashMap<u32, usize>,
    /// Statistics tracking
    pub stats: Stats,
}

impl View for Simulator {
    type V = Machine;

    open spec fn view(&self) -> Machine {
        Machine {
            mmu: self.mmu@,
            pipeline: self.pipeline@,
            regs: self.gen_regs@,
            clock: self.clock,
            pc: self.pc,
            cur_mem: self.cur_mem,
            cur_cache_set: self.cur_cache_set,
            online: self.online,
            screen: self.vga.screen@,
            pipelining_enabled: self.pipelining_enabled,
            breakpoints: self.breakpoints@,
            stats: self.stats,
        }
    }
}

impl Clone for Simulator {
    fn clone(&self) -> (copy: Self) {
        Simulator {
            mmu: self.mmu.clone(),
            pipeline: self.pipeline.clone(),
            gen_regs: self.gen_regs,
            clock: self.clock,
            pc: self.pc,
            cur_mem: self.cur_mem,
            cur_cache_set: (self.cur_cache_set.0, self.cur_cache_set.1),
            online: self.online,
            vga: self.vga.clone(),
            pipelining_enabled: self.pipelining_enabled,
            breakpoints: self.breakpoints.clone(),
            stats: self.stats,
        }
    }
}

impl Default for Simulator {
    fn default() -> (sim: Self)
        ensures
            sim@ == Machine::initial(),
            sim.wf(),
    {
        Self::new()
    }
}

/// A copy of `bytes`.
fn copy_bytes(bytes: &Vec<u8>) -> (copy: Vec<u8>)
    ensures
        copy@ == bytes@,
{
    let mut copy: Vec<u8> = Vec::new();
    let mut i: usize = 0;
    while i < bytes.len()
        invariant
            i <= bytes.len(),
            copy@ == bytes@.take(i as int),
        decreases bytes.len() - i,
    {
        copy.push(bytes[i]);
        i += 1;
        assert(copy@ =~= bytes@.take(i as int));
    }
    assert(bytes@.take(bytes.len() as int) =~= bytes@);
    copy
}

/// Remove the first `n` bytes of `bytes`.
fn drop_front(bytes: &mut Vec<u8>, n: usize)
    requires
        n <= old(bytes).len(),
    ensures
        final(bytes)@ == old(bytes)@.skip(n as int),
{
    let mut rest: Vec<u8> = Vec::new();
    let mut i: usize = n;
    while i < bytes.len()
        invariant
            n <= i <= bytes.len(),
            rest@ == bytes@.subrange(n as int, i as int),
        decreases bytes.len() - i,
    {
        rest.push(bytes[i]);
        i += 1;
        assert(rest@ =~= bytes@.subrange(n as int, i as int));
    }
    assert(rest@ =~= bytes@.skip(n as int));
    *bytes = rest;
}

impl Simulator {
    /// The shape that every operation keeps. In particular `R0` holds zero.
    pub open spec fn wf(&self) -> bool {
        self@.wf()
    }

    /// Initialize a new empty simulation environment
    pub fn new() -> (sim: Self)
        ensures
            sim@ == Machine::initial(),
            sim.wf(),
            sim@.mmu.coherent(),
    {
        let sim = Self {
            mmu: Mmu::new(),
            gen_regs: [0u32;NUM_REGS],
            clock: 0,
            pc: VAddr(0),
            cur_mem: VAddr(0),
            cur_cache_set: (0, 0),
            pipeline: Pipeline::default(),
            online: true,
            vga: VgaDriver::new(),
            pipelining_enabled: true,
            breakpoints: fx_new(),
            stats: Stats::default(),
        };
        proof {
            assert(sim@.regs =~= Machine::initial().regs);
            assert(sim@.breakpoints =~= Machine::initial().breakpoints);
            assert(sim@ =~= Machine::initial());
        }
        sim
    }

    /// Map a page into physical memory using the given virtual address: `addr`
    /// and permissions: `perms`
    pub fn map_page(&mut self, addr: VAddr, perms: u8) -> (r: Result<(), SimErr>)
        requires
            old(self).wf(),
        ensures
            final(self).pc == old(self).pc,
            final(self).pipeline.pc == old(self).pipeline.pc,
            final(self).stats.total_instrs == old(self).stats.total_instrs,
            old(self)@.mmu.coherent() && old(self)@.mmu.cache_enabled
                ==> final(self)@.mmu.coherent() && final(self)@.mmu.cache_enabled,
            final(self).clock == old(self).clock,
            final(self).wf(),
            final(self)@ == (Machine { mmu: final(self)@.mmu, ..old(self)@ }),
            old(self)@.mmu.coherent() ==> final(self)@.mmu.coherent(),
            r is Ok <==> old(self)@.mmu.mappable(addr.0) && !old(self)@.mmu.exhausted(),
            r is Ok ==> exists|page: u32| #[trigger]
                old(self)@.mmu.fresh_page(page) && final(self)@.mmu == old(self)@.mmu.with_mapping(
                    addr.0,
                    perms,
                    page,
                ),
            r is Err ==> r == Err::<(), SimErr>(SimErr::MemOverlap) && final(self)@ == old(self)@,
    {
        let r = self.mmu.map_page(addr, perms);
        proof {
            assert(self@ =~= (Machine { mmu: self@.mmu, ..old(self)@ }));
            if r is Err {
                assert(self@ =~= old(self)@);
            }
        }
        r
    }

    /// Map a page into physical memory using the given virtual address: `addr`
    /// and permissions: `perms`, where `seed` is the number that was drawn to pick
    /// the physical page
    pub fn map_page_from(&mut self, addr: VAddr, perms: u8, seed: u32) -> (r: Result<(), SimErr>)
        requires
            old(self).wf(),
        ensures
            final(self).pc == old(self).pc,
            final(self).pipeline.pc == old(self).pipeline.pc,
            final(self).stats.total_instrs == old(self).stats.total_instrs,
            old(self)@.mmu.coherent() && old(self)@.mmu.cache_enabled
                ==> final(self)@.mmu.coherent() && final(self)@.mmu.cache_enabled,
            final(self).wf(),
            final(self).clock == old(self).clock,
            old(self)@.mmu.coherent() ==> final(self)@.mmu.coherent(),
            final(self)@ == old(self)@.page_mapped(addr.0, perms, seed).0,
            r == old(self)@.page_mapped(addr.0, perms, seed).1,
    {
        let r = self.mmu.map_page_from(addr, perms, seed);
        proof {
            assert(self@ =~= old(self)@.page_mapped(addr.0, perms, seed).0);
        }
        match r {
            Ok(_) => Ok(()),
            Err(e) => Err(e),
        }
    }

    /// Completely flush cache
    pub fn clear_caches(&mut self)
        requires
            old(self).wf(),
        ensures
            final(self).pc == old(self).pc,
            final(self).pipeline.pc == old(self).pipeline.pc,
            final(self).stats.total_instrs == old(self).stats.total_instrs,
            old(self)@.mmu.coherent() && old(self)@.mmu.cache_enabled
                ==> final(self)@.mmu.coherent() && final(self)@.mmu.cache_enabled,
            final(self).clock == old(self).clock,
            final(self).wf(),
            final(self)@ == (Machine {
                mmu: old(self)@.mmu.flushed(),
                cur_cache_set: (0usize, 0usize),
                ..old(self)@
            }),
            final(self)@.mmu.coherent(),
    {
        self.cur_cache_set = (0, 0);
        self.mmu.clear_caches();
        proof {
            assert(self@ =~= (Machine {
                mmu: old(self)@.mmu.flushed(),
                cur_cache_set: (0usize, 0usize),
                ..old(self)@
            }));
        }
    }

    /// Read `reg`'s value from the simulator state
    pub fn read_reg(&self, reg: Register) -> (val: u32)
        requires
            reg.is_real(),
        ensures
            val == self@.reg(reg),
    {
        self.gen_regs[reg.index()]
    }

    /// Write `val` to `reg`' in the simulator state
    pub fn write_reg(&mut self, reg: Register, val: u32)
        requires
            reg.is_real(),
        ensures
            final(self).pc == old(self).pc,
            final(self).pipeline.pc == old(self).pipeline.pc,
            final(self).stats.total_instrs == old(self).stats.total_instrs,
            old(self)@.mmu.coherent() && old(self)@.mmu.cache_enabled
                ==> final(self)@.mmu.coherent() && final(self)@.mmu.cache_enabled,
            final(self).clock == old(self).clock,
            final(self)@ == old(self)@.with_reg(reg, val),
            old(self).wf() ==> final(self).wf(),
    {
        // Don't write zero-register
        if reg != Register::R0 {
            self.gen_regs[reg.index()] = val;
        }
        proof {
            assert(self@ =~= old(self)@.with_reg(reg, val));
        }
    }

    /// Count a load that hit or missed the cache
    fn count_access(&mut self, cache_hit: bool)
        ensures
            final(self).pc == old(self).pc,
            final(self).pipeline.pc == old(self).pipeline.pc,
            final(self).stats.total_instrs == old(self).stats.total_instrs,
            old(self)@.mmu.coherent() && old(self)@.mmu.cache_enabled
                ==> final(self)@.mmu.coherent() && final(self)@.mmu.cache_enabled,
            final(self).clock == old(self).clock,
            final(self)@ == old(self)@.with_stats(old(self)@.counted(cache_hit)),
    {
        if self.mmu.cache_enabled {
            if cache_hit {
                self.stats.cache_hits = self.stats.cache_hits.saturating_add(1);
            } else {
                self.stats.cache_misses = self.stats.cache_misses.saturating_add(1);
            }
        }
        proof {
            assert(self@ =~= old(self)@.with_stats(old(self)@.counted(cache_hit)));
        }
    }

    /// Wrapper around `mmu.mem_read` that keeps the statistics of the cache
    pub fn mem_read(&mut self, addr: VAddr, reader: &mut Vec<u8>) -> (r: Result<(), SimErr>)
        requires
            old(self).wf(),
            old(reader).len() <= 4,
            aligned(addr.0, 4),
        ensures
            final(self).pc == old(self).pc,
            final(self).pipeline.pc == old(self).pipeline.pc,
            final(self).stats.total_instrs == old(self).stats.total_instrs,
            old(self)@.mmu.coherent() && old(self)@.mmu.cache_enabled
                ==> final(self)@.mmu.coherent() && final(self)@.mmu.cache_enabled,
            final(self).clock == old(self).clock,
            final(self).wf(),
            old(self)@.mmu.coherent() ==> final(self)@.mmu.coherent(),
            final(self)@ == old(self)@.load(addr.0, old(reader).len() as int).0,
            match old(self)@.load(addr.0, old(reader).len() as int).1 {
                Ok(bytes) => r is Ok && final(reader)@ == bytes,
                Err(e) => r == Err::<(), SimErr>(e) && final(reader)@ == old(reader)@,
            },
    {
        if reader.len() > 0 {
            let cache_hit = match self.mmu.mem_read(addr, reader) {
                Ok(cache_hit) => cache_hit,
                Err(e) => {
                    proof {
                        assert(self@ =~= old(self)@.load(addr.0, old(reader).len() as int).0);
                    }
                    return Err(e);
                },
            };

            // Update stats
            let ghost mid = self@;
            self.count_access(cache_hit);
            proof {
                assert(mid.mmu.cache_enabled == old(self)@.mmu.cache_enabled);
                assert(self@ =~= old(self)@.load(addr.0, old(reader).len() as int).0);
            }
        } else {
            assert(reader@ =~= Seq::<u8>::empty());
        }
        Ok(())
    }

    /// Wrapper around `mmu.gui_mem_read`
    /// Tuned for observers, the other implementation tracks some stats that an observer shouldn't
    pub fn gui_mem_read(&mut self, addr: VAddr, reader: &mut Vec<u8>) -> (r: Result<(), SimErr>)
        requires
            old(self).wf(),
            old(reader).len() <= 4,
            aligned(addr.0, 4),
        ensures
            final(self).pc == old(self).pc,
            final(self).pipeline.pc == old(self).pipeline.pc,
            final(self).stats.total_instrs == old(self).stats.total_instrs,
            old(self)@.mmu.coherent() && old(self)@.mmu.cache_enabled
                ==> final(self)@.mmu.coherent() && final(self)@.mmu.cache_enabled,
            final(self).clock == old(self).clock,
            final(self)@ == old(self)@,
            old(reader).len() == 0 ==> r is Ok && final(reader)@ == old(reader)@,
            old(reader).len() > 0 ==> match old(self)@.mmu.peek(addr.0, old(reader).len() as int) {
                Ok(bytes) => r is Ok && final(reader)@ == bytes,
                Err(e) => r == Err::<(), SimErr>(e) && final(reader)@ == old(reader)@,
            },
    {
        if reader.len() > 0 {
            match self.mmu.gui_mem_read(addr, reader) {
                Ok(_) => {},
                Err(e) => {
                    proof {
                        assert(self@ =~= old(self)@);
                    }
                    return Err(e);
                },
            }
        }
        proof {
            assert(self@ =~= old(self)@);
        }
        Ok(())
    }

    /// Wrapper around `mmu.mem_write` to expose an api that can write more than 4 bytes at once,
    /// and that performs what a write to the control register or to the text buffer of the
    /// screen asks for. `rnd` is the number that the control register hands out where it is
    /// asked for a random one. The bytes that were written are taken out of `writer`.
    pub fn mem_write_with(&mut self, addr: VAddr, writer: &mut Vec<u8>, rnd: u32) -> (r: Result<
        u32,
        SimErr,
    >)
        requires
            old(self).wf(),
            storable(addr.0, old(writer).len() as int),
            addr.0 == MMIO_BASE ==> old(writer).len() > 0,
        ensures
            final(self).pc == old(self).pc,
            final(self).pipeline.pc == old(self).pipeline.pc,
            final(self).stats.total_instrs == old(self).stats.total_instrs,
            old(self)@.mmu.coherent() && old(self)@.mmu.cache_enabled
                ==> final(self)@.mmu.coherent() && final(self)@.mmu.cache_enabled,
            final(self).clock == old(self).clock,
            final(self).wf(),
            old(self)@.mmu.coherent() && old(self)@.mmu.cache_enabled
                ==> final(self)@.mmu.coherent(),
            final(self)@ == old(self)@.store(addr.0, old(writer)@, rnd).0,
            r == old(self)@.store(addr.0, old(writer)@, rnd).1,
            final(writer)@ == old(writer)@.skip(store_chunks(old(self)@.mmu, addr.0, old(writer)@).2),
    {
        let mut addr_to_write = addr;
        let writer_cpy = copy_bytes(writer);
        let ghost data = writer@;
        let ghost done: int = 0;
        assert(data.skip(0) =~= data);

        while writer.len() > 0
            invariant
                self.wf(),
                old(self)@.mmu.coherent() && old(self)@.mmu.cache_enabled ==> self@.mmu.coherent(),
                self@.mmu.cache_enabled == old(self)@.mmu.cache_enabled,
                self@ == (Machine { mmu: self@.mmu, ..old(self)@ }),
                data == old(writer)@,
                0 <= done <= data.len(),
                writer@ == data.skip(done),
                storable(addr_to_write.0, writer.len() as int),
                store_chunks(old(self)@.mmu, addr.0, data) == ({
                    let (m, r, k) = store_chunks(self@.mmu, addr_to_write.0, writer@);
                    (m, r, done + k)
                }),
            decreases writer.len(),
        {
            let len = if writer.len() < 4 {
                writer.len()
            } else {
                4
            };
            let ghost before = self@;
            let ghost rest = writer@;
            let chunk = slice_subrange(writer.as_slice(), 0, len);
            assert(chunk@ =~= rest.take(len as int));
            match self.mmu.mem_write(addr_to_write, chunk) {
                Ok(()) => {},
                Err(e) => {
                    proof {
                        assert(len == chunk_len(rest.len() as int));
                        assert(store_chunks(before.mmu, addr_to_write.0, rest) == (
                            self@.mmu,
                            Err::<(), SimErr>(e),
                            0int,
                        ));
                        assert(self@ =~= old(self)@.store(addr.0, data, rnd).0);
                    }
                    return Err(e);
                },
            }
            proof {
                assert(len == chunk_len(rest.len() as int));
                assert(store_chunks(before.mmu, addr_to_write.0, rest) == ({
                    let (m, r, k) = store_chunks(
                        self@.mmu,
                        addr_to_write.0.wrapping_add(len as u32),
                        rest.skip(len as int),
                    );
                    (m, r, len + k)
                }));
            }
            drop_front(writer, len);
            addr_to_write.0 = addr_to_write.0.wrapping_add(len as u32);
            proof {
                done = done + len;
                assert(writer@ =~= data.skip(done));
                assert(self@ =~= (Machine { mmu: self@.mmu, ..old(self)@ }));
            }
        }

        proof {
            assert(store_chunks(old(self)@.mmu, addr.0, data).2 == data.len());
            assert(writer@ =~= data.skip(data.len() as int));
        }
        let ghost stored = self@;
        if addr.0 == MMIO_BASE && writer_cpy[0] == MMIO_SHUTDOWN {
            // MMIO-Region field was written to exit guest
            self.online = false;
            proof {
                assert(self@ =~= stored.mmio(addr.0, data, rnd).0);
            }
            return Err(SimErr::Shutdown);
        } else if addr.0 == MMIO_BASE && writer_cpy[0] == MMIO_CLOCK {
            // MMIO-Region field was written to get current clock-counter
            let clock = self.clock;
            self.write_reg(Register::R1, clock);
        } else if addr.0 == MMIO_BASE && writer_cpy[0] == MMIO_RANDOM {
            // MMIO-Region field was written to get random number
            self.write_reg(Register::R1, rnd);
        }
        // Write to vga-buf

        if addr.0 >= VGA_BASE && addr.0 <= VGA_END {
            self.vga.write(addr, &writer_cpy);
        }
        proof {
            assert(self@ =~= stored.mmio(addr.0, data, rnd).0);
        }
        Ok(1)
    }

    /// Wrapper around `mmu.mem_write` to expose an api that can write more than 4 bytes at once,
    /// and that performs what a write to the control register or to the text buffer of the
    /// screen asks for. The bytes that were written are taken out of `writer`.
    pub fn mem_write(&mut self, addr: VAddr, writer: &mut Vec<u8>) -> (r: Result<u32, SimErr>)
        requires
            old(self).wf(),
            storable(addr.0, old(writer).len() as int),
            addr.0 == MMIO_BASE ==> old(writer).len() > 0,
        ensures
            final(self).pc == old(self).pc,
            final(self).pipeline.pc == old(self).pipeline.pc,
            final(self).stats.total_instrs == old(self).stats.total_instrs,
            old(self)@.mmu.coherent() && old(self)@.mmu.cache_enabled
                ==> final(self)@.mmu.coherent() && final(self)@.mmu.cache_enabled,
            final(self).clock == old(self).clock,
            final(self).wf(),
            old(self)@.mmu.coherent() && old(self)@.mmu.cache_enabled
                ==> final(self)@.mmu.coherent(),
            exists|rnd: u32|
                final(self)@ == (#[trigger] old(self)@.store(addr.0, old(writer)@, rnd)).0 && r
                    == old(self)@.store(addr.0, old(writer)@, rnd).1,
            final(writer)@ == old(writer)@.skip(store_chunks(old(self)@.mmu, addr.0, old(writer)@).2),
    {
        let rnd = if addr.0 == MMIO_BASE && writer[0] == MMIO_RANDOM {
            random_u32()
        } else {
            0
        };
        self.mem_write_with(addr, writer, rnd)
    }

    /// Decode instruction at `pc`
    pub fn decode_instr(&mut self, pc: VAddr) -> (r: Result<Instr, SimErr>)
        requires
            old(self).wf(),
            aligned(pc.0, 4),
        ensures
            final(self).stats.total_instrs == old(self).stats.total_instrs,
            old(self)@.mmu.coherent() && old(self)@.mmu.cache_enabled
                ==> final(self)@.mmu.coherent() && final(self)@.mmu.cache_enabled,
            final(self).clock == old(self).clock,
            final(self).wf(),
            final(self)@ == old(self)@.load(pc.0, 4).0,
            r == match old(self)@.load(pc.0, 4).1 {
                Ok(bytes) => spec_decode(le_value(bytes)),
                Err(e) => Err(e),
            },
    {
        // Read instruction from memory
        let mut reader = zero_bytes(4);
        match self.mem_read(pc, &mut reader) {
            Ok(()) => {},
            Err(e) => {
                return Err(e);
            },
        }
        proof {
            old(self)@.lemma_load_len(pc.0, 4);
        }
        let instr: u32 = as_u32_le(&reader);

        decode_instr(instr)
    }

    /// Decode instruction at `pc` without a trace in the cache or in the statistics
    pub fn gui_decode_instr(&mut self, pc: VAddr) -> (r: Result<Instr, SimErr>)
        requires
            old(self).wf(),
            aligned(pc.0, 4),
        ensures
            final(self).stats.total_instrs == old(self).stats.total_instrs,
            old(self)@.mmu.coherent() && old(self)@.mmu.cache_enabled
                ==> final(self)@.mmu.coherent() && final(self)@.mmu.cache_enabled,
            final(self).clock == old(self).clock,
            final(self)@ == old(self)@,
            r == match old(self)@.mmu.peek(pc.0, 4) {
                Ok(bytes) => spec_decode(le_value(bytes)),
                Err(e) => Err(e),
            },
    {
        // Read instruction from memory
        let mut reader = zero_bytes(4);
        match self.gui_mem_read(pc, &mut reader) {
            Ok(()) => {},
            Err(e) => {
                return Err(e);
            },
        }
        proof {
            old(self)@.lemma_load_len(pc.0, 4);
        }
        let instr: u32 = as_u32_le(&reader);

        decode_instr(instr)
    }
}


proof fn lemma_shift_amount(b: u32)
    by (bit_vector)
    ensures
        b & 31 < 32,
{
}

/// Compute what a three-register operation yields
pub fn alu_result(code: InstrCode, a: u32, b: u32) -> (r: u32)
    requires
        code.is_alu(),
        code == InstrCode::Div ==> b != 0,
    ensures
        r == alu(code, a, b),
{
    proof {
        lemma_shift_amount(b);
    }
    match code {
        InstrCode::Add => a.wrapping_add(b),
        InstrCode::Sub => a.wrapping_sub(b),
        InstrCode::Xor => a ^ b,
        InstrCode::Or => a | b,
        InstrCode::And => a & b,
        InstrCode::Shr => a >> (b & 31),
        InstrCode::Shl => a << (b & 31),
        InstrCode::Mul => a.wrapping_mul(b),
        InstrCode::Div => a / b,
        _ => 0,
    }
}

/// Compute what an operation with an immediate yields
pub fn alu_imm_result(code: InstrCode, a: u32, imm: i32) -> (r: u32)
    requires
        code.is_alu_imm(),
    ensures
        r == alu_imm(code, a, imm),
{
    let b = #[verifier::truncate] (imm as u32);
    match code {
        InstrCode::Addi => a.wrapping_add(b),
        InstrCode::Subi => a.wrapping_sub(b),
        InstrCode::Xori => a ^ b,
        InstrCode::Ori => a | b,
        InstrCode::Andi => a & b,
        _ => 0,
    }
}

/// Evaluate the comparison of a branch
pub fn branch_taken(code: InstrCode, rs3: u32, rs1: u32) -> (b: bool)
    requires
        code.is_branch(),
    ensures
        b == taken(code, rs3, rs1),
{
    match code {
        InstrCode::Bne => rs3 != rs1,
        InstrCode::Beq => rs3 == rs1,
        InstrCode::Blt => rs3 < rs1,
        InstrCode::Bgt => rs3 > rs1,
        _ => false,
    }
}

/// Whether some register of `writes` is also one of `uses`
pub fn registers_clash(writes: &Vec<Register>, uses: &Vec<Register>) -> (b: bool)
    ensures
        b == clash(writes@, uses@),
{
    let mut w: usize = 0;
    while w < writes.len()
        invariant
            w <= writes.len(),
            forall|a: int, u: int|
                0 <= a < w && 0 <= u < uses.len() ==> #[trigger] writes@[a] != #[trigger] uses@[u],
        decreases writes.len() - w,
    {
        let mut u: usize = 0;
        while u < uses.len()
            invariant
                u <= uses.len(),
                w < writes.len(),
                forall|a: int, u: int|
                    0 <= a < w && 0 <= u < uses.len() ==> #[trigger] writes@[a] != #[trigger] uses@[u],
                forall|b: int| 0 <= b < u ==> writes@[w as int] != #[trigger] uses@[b],
            decreases uses.len() - u,
        {
            if writes[w] == uses[u] {
                return true;
            }
            u += 1;
        }
        w += 1;
    }
    false
}

impl Simulator {
    /// The number of cycles that an access to `addr` still takes after the cycle that began it
    fn stall_cycles(&self, addr: VAddr) -> (r: Result<usize, SimErr>)
        requires
            self.wf(),
        ensures
            r == self@.stall_time(addr.0),
    {
        let paddr = match self.mmu.translate_addr(addr, Perms::READ) {
            Ok(paddr) => paddr,
            Err(e) => {
                return Err(e);
            },
        };
        if self.mmu.addr_in_cache(paddr) {
            Ok(L1_CACHE_STALL - 1)
        } else {
            Ok(RAM_STALL - 1)
        }
    }

    /// Spend this cycle waiting for the memory access of slot `i`
    fn wait(&mut self, i: usize, left: usize)
        requires
            old(self).wf(),
            i < NUM_SLOTS,
        ensures
            final(self).pc == old(self).pc,
            final(self).stats.total_instrs == old(self).stats.total_instrs,
            old(self)@.mmu.coherent() && old(self)@.mmu.cache_enabled
                ==> final(self)@.mmu.coherent() && final(self)@.mmu.cache_enabled,
            final(self).clock == old(self).clock,
            final(self).wf(),
            final(self)@ == old(self)@.waiting(i as int, left),
    {
        self.pipeline.slots[i].mem_stall = Some(left);
        self.stats.mem_clock = self.stats.mem_clock.saturating_add(1);
        proof {
            assert(self@.pipeline.slots =~= old(self)@.waiting(i as int, left).pipeline.slots);
            assert(self@ =~~= old(self)@.waiting(i as int, left));
        }
    }

    /// Figure out the address that the instruction in the memory stage accesses
    fn accessed_addr(&self) -> (r: Option<VAddr>)
        requires
            self.wf(),
        ensures
            match r {
                Some(addr) => self@.mem_target() == Some(addr.0),
                None => self@.mem_target() is None,
            },
    {
        let code = match self.pipeline.slots[3].instr.code() {
            Some(code) => code,
            None => {
                return None;
            },
        };
        if code == InstrCode::Ret {
            Some(VAddr(self.read_reg(Register::R15)))
        } else if code == InstrCode::Call {
            Some(VAddr(self.read_reg(Register::R15).wrapping_sub(4)))
        } else if code == InstrCode::Int0 {
            Some(VAddr(INT0_VECTOR))
        } else if code.is_load() || code.is_store() {
            Some(self.pipeline.slots[3].addr)
        } else {
            None
        }
    }

    /// Return of `true` indicates that we are still stalling on a memory read
    /// Return of `false indicates that we are good to execute the stages on this clock-cycle
    pub fn process_mem_stalls(&mut self, check_stage_0: bool, check_stage_3: bool) -> (r: Result<
        bool,
        SimErr,
    >)
        requires
            old(self).wf(),
        ensures
            final(self).pc == old(self).pc,
            final(self).stats.total_instrs == old(self).stats.total_instrs,
            old(self)@.mmu.coherent() && old(self)@.mmu.cache_enabled
                ==> final(self)@.mmu.coherent() && final(self)@.mmu.cache_enabled,
            final(self).clock == old(self).clock,
            final(self).wf(),
            final(self)@ == old(self)@.stalled(check_stage_0, check_stage_3).0,
            r == old(self)@.stalled(check_stage_0, check_stage_3).1,
            r == Ok::<bool, SimErr>(false) ==> final(self)@ == old(self)@,
    {
        // Handle memmory stall occuring through fetch stage
        if !self.pipeline.disable && check_stage_0 {
            match self.pipeline.slots[0].mem_stall {
                None => {
                    let left = match self.stall_cycles(self.pipeline.pc) {
                        Ok(left) => left,
                        Err(e) => {
                            return Err(e);
                        },
                    };
                    self.wait(0, left);
                    return Ok(true);
                },
                Some(stall_time) => {
                    if stall_time != 0 {
                        self.wait(0, stall_time - 1);
                        return Ok(true);
                    }
                },
            }
        }
        // Handle memmory stall occuring through memory stage

        if check_stage_3 {
            match self.pipeline.slots[3].mem_stall {
                None => {
                    if let Some(addr) = self.accessed_addr() {
                        let left = match self.stall_cycles(addr) {
                            Ok(left) => left,
                            Err(e) => {
                                return Err(e);
                            },
                        };
                        self.wait(3, left);
                        return Ok(true);
                    }
                },
                Some(stall_time) => {
                    if stall_time != 0 {
                        self.wait(3, stall_time - 1);
                        return Ok(true);
                    }
                },
            }
        }
        // No memory stall occurs in this case

        Ok(false)
    }

    /// Perform fetch stage of pipeline
    /// Reads next instruction from memory @ `pipeline.pc`
    /// Increments `pipeline.pc`
    pub fn pl_fetch_stage(&mut self) -> (r: Result<(), SimErr>)
        requires
            old(self).wf(),
        ensures
            final(self).pc == old(self).pc,
            final(self).stats.total_instrs == old(self).stats.total_instrs,
            old(self)@.mmu.coherent() && old(self)@.mmu.cache_enabled
                ==> final(self)@.mmu.coherent() && final(self)@.mmu.cache_enabled,
            final(self).clock == old(self).clock,
            final(self).wf(),
            final(self)@ == old(self)@.fetched().0,
            r == old(self)@.fetched().1,
            forall|i: int| 1 <= i < NUM_SLOTS ==> final(self)@.slot(i) == old(self)@.slot(i),
    {
        let pc = self.pipeline.pc;
        if pc.0 % 4 != 0 {
            return Err(SimErr::Misaligned);
        }
        // Fetch instruction from memory

        let mut reader = zero_bytes(4);
        match self.mem_read(pc, &mut reader) {
            Ok(()) => {},
            Err(e) => {
                return Err(e);
            },
        }
        proof {
            old(self)@.lemma_load_len(pc.0, 4);
        }
        let raw: u32 = as_u32_le(&reader);

        // Load it into our pipeline instruction backing so we can use the bytes in future pipeline
        // stages
        self.pipeline.slots[0].instr_backing = raw;
        self.pipeline.slots[0].valid = true;
        self.pipeline.slots[0].pc = pc;

        // Advance internal pc. This does not yet advance the actual pc, but the pc that future
        // pipeline stages operate on
        self.pipeline.pc.0 = pc.0.wrapping_add(4);
        proof {
            assert(self@.pipeline.slots =~= old(self)@.fetched().0.pipeline.slots);
            assert(self@ =~~= old(self)@.fetched().0);
        }
        Ok(())
    }

    /// Stop fetching and hold the slots up to `stage` in place
    fn hold(&mut self, stage: usize)
        requires
            old(self).wf(),
            stage < NUM_SLOTS,
        ensures
            final(self).pc == old(self).pc,
            final(self).stats.total_instrs == old(self).stats.total_instrs,
            old(self)@.mmu.coherent() && old(self)@.mmu.cache_enabled
                ==> final(self)@.mmu.coherent() && final(self)@.mmu.cache_enabled,
            final(self).clock == old(self).clock,
            final(self).wf(),
            final(self)@ == old(self)@.held(stage as int),
    {
        // Disable the pipeline so we no longer attempt to execute new instructions
        self.pipeline.disable = true;

        // Disable all instructions placed lower in the pipeline since these should
        // not be executing while this instruction is stalled
        let mut counter = stage + 1;
        while counter > 0
            invariant
                counter <= stage + 1,
                stage < NUM_SLOTS,
                self.wf(),
                self@ == (Machine { pipeline: self@.pipeline, ..old(self)@ }),
                self@.pipeline == (crate::pipeline::PipelineView {
                    disable: true,
                    slots: self@.pipeline.slots,
                    ..old(self)@.pipeline
                }),
                forall|k: int|
                    0 <= k < NUM_SLOTS ==> self@.pipeline.slots[k] == if counter <= k <= stage {
                        Slot { disable: true, ..old(self)@.slot(k) }
                    } else {
                        old(self)@.slot(k)
                    },
            decreases counter,
        {
            self.pipeline.slots[counter - 1].disable = true;
            counter -= 1;
        }
        proof {
            assert(self@.pipeline.slots =~= old(self)@.held(stage as int).pipeline.slots);
            assert(self@ =~~= old(self)@.held(stage as int));
        }
    }

    /// Checks if there are any data hazards in the pipeline for one of the registers in `reg_uses`
    pub fn caused_data_hazards(&mut self, cur_stage: usize, reg_uses: &Vec<Register>) -> (b: bool)
        requires
            old(self).wf(),
            cur_stage < NUM_SLOTS,
        ensures
            final(self).pc == old(self).pc,
            final(self).stats.total_instrs == old(self).stats.total_instrs,
            old(self)@.mmu.coherent() && old(self)@.mmu.cache_enabled
                ==> final(self)@.mmu.coherent() && final(self)@.mmu.cache_enabled,
            final(self).clock == old(self).clock,
            final(self).wf(),
            b == old(self)@.hazard(cur_stage as int, reg_uses@),
            final(self)@ == if b {
                old(self)@.held(cur_stage as int)
            } else {
                old(self)@
            },
    {
        // Loop through all instructions in the pipeline that were scheduled before this instruction
        let mut i = cur_stage + 1;
        while i < NUM_SLOTS
            invariant
                cur_stage < i <= NUM_SLOTS,
                *self == *old(self),
                self.wf(),
                forall|k: int|
                    cur_stage < k < i ==> !((#[trigger] self@.slot(k)).valid && clash(
                        self@.slot(k).instr.writes(),
                        reg_uses@,
                    )),
            decreases NUM_SLOTS - i,
        {
            // Skip invalid pipeline slots
            if self.pipeline.slots[i].valid {
                // Check if this instruction writes to rs3
                let regs_written = self.pipeline.slots[i].instr.writes_to_rs3();
                if registers_clash(&regs_written, reg_uses) {
                    // Data Hazard
                    // This instruction tries reading a register that is still in the pipeline
                    // to be written to
                    assert(self@.slot(i as int).valid);
                    self.hold(cur_stage);
                    return true;
                }
            }
            i += 1;
        }
        return false;
    }

    /// Resume fetching and let every slot move again
    fn release(&mut self)
        requires
            old(self).wf(),
        ensures
            final(self).pc == old(self).pc,
            final(self).stats.total_instrs == old(self).stats.total_instrs,
            old(self)@.mmu.coherent() && old(self)@.mmu.cache_enabled
                ==> final(self)@.mmu.coherent() && final(self)@.mmu.cache_enabled,
            final(self).clock == old(self).clock,
            final(self).wf(),
            final(self)@ == old(self)@.released(),
    {
        self.pipeline.disable = false;
        let mut i: usize = 0;
        while i < NUM_SLOTS
            invariant
                i <= NUM_SLOTS,
                self.wf(),
                self@ == (Machine { pipeline: self@.pipeline, ..old(self)@ }),
                self@.pipeline == (crate::pipeline::PipelineView {
                    disable: false,
                    slots: self@.pipeline.slots,
                    ..old(self)@.pipeline
                }),
                forall|k: int|
                    0 <= k < NUM_SLOTS ==> self@.pipeline.slots[k] == if k < i {
                        Slot { disable: false, ..old(self)@.slot(k) }
                    } else {
                        old(self)@.slot(k)
                    },
            decreases NUM_SLOTS - i,
        {
            self.pipeline.slots[i].disable = false;
            i += 1;
        }
        proof {
            assert(self@.pipeline.slots =~= old(self)@.released().pipeline.slots);
            assert(self@ =~~= old(self)@.released());
        }
    }

    /// Retrieve register values since that can be at the same time as the decoding in a cpu
    fn load_operands(&self, instr: Instr) -> (slot: Slot)
        requires
            self.wf(),
            instr.operands_exist(),
            instr.code() is Some,
        ensures
            slot == self@.loaded_slot(instr),
    {
        let code = instr.code().unwrap();
        let mut slot = self.pipeline.slots[1];
        if code.is_alu() {
            // R-Type
            slot.rs1 = self.read_reg(instr.rs1());
            slot.rs2 = self.read_reg(instr.rs2());
            slot.rs3 = self.read_reg(instr.rs3());
        } else if code.is_alu_imm() || code.is_load() || code.is_store() {
            // G-Type
            slot.rs1 = self.read_reg(instr.rs1());
            slot.imm = instr.imm();
            slot.rs3 = self.read_reg(instr.rs3());
            slot.offset = instr.imm();
        } else if code == InstrCode::Lui {
            slot.imm = instr.imm();
            slot.rs3 = self.read_reg(instr.rs3());
        } else if code.is_branch() {
            slot.rs1 = self.read_reg(instr.rs1());
            slot.imm = instr.imm();
            slot.rs3 = self.read_reg(instr.rs3());
        } else if code == InstrCode::Jmpr {
            slot.offset = instr.offset();
            slot.rs3 = self.read_reg(instr.rs3());
        } else if code == InstrCode::Call {
            slot.addr = VAddr(#[verifier::truncate] (instr.offset() as u32));
        } else if code == InstrCode::Ret {
            slot.addr = VAddr(self.read_reg(Register::R14));
        }
        slot
    }

    /// Take notice of a control-flow instruction in the decode stage: reset the slot that
    /// was fetched behind it, and redirect or stop the fetch stage
    fn redirect(&mut self, code: InstrCode)
        requires
            old(self).wf(),
        ensures
            final(self).pc == old(self).pc,
            final(self).stats.total_instrs == old(self).stats.total_instrs,
            old(self)@.mmu.coherent() && old(self)@.mmu.cache_enabled
                ==> final(self)@.mmu.coherent() && final(self)@.mmu.cache_enabled,
            final(self).clock == old(self).clock,
            final(self).wf(),
            final(self)@ == old(self)@.redirected(code),
    {
        if code.is_branch() || code == InstrCode::Int0 {
            // This means the instruction we just loaded into the pipeline is no longer valid
            // We properly handle the flush in the exec state
            self.pipeline.slots[0] = Slot::default();

            // We won't know what the next pc will be until a later stage so stop unnecessarily
            // fetching new instructions until we know the correct address
            self.pipeline.disable = true;
        } else if code == InstrCode::Jmpr {
            // Reset incorrect pipeline slot and redirect `pipeline.pc` to decode at
            // branch-target
            let offset = self.pipeline.slots[1].offset;
            self.pipeline.slots[0] = Slot::default();
            let lead: u32 = if self.pipelining_enabled {
                8
            } else {
                4
            };
            self.pipeline.pc.0 = self.pipeline.pc.0.wrapping_sub(lead).wrapping_add(
                #[verifier::truncate] (offset as u32),
            );
        } else if code == InstrCode::Call || code == InstrCode::Ret {
            // Reset incorrect pipeline slot and redirect `pipeline.pc` to decode at
            // branch-target
            self.pipeline.slots[0] = Slot::default();
            self.pipeline.pc = self.pipeline.slots[1].addr;
        }
        proof {
            assert(self@.pipeline.slots =~= old(self)@.redirected(code).pipeline.slots);
            assert(self@ =~~= old(self)@.redirected(code));
        }
    }

    /// Read the operands of `instr` into slot 1. A control-flow instruction also empties
    /// slot 0 and redirects or stops the fetch stage.
    fn read_operands(&mut self, instr: Instr)
        requires
            old(self).wf(),
            instr.operands_exist(),
            instr.code() is Some,
        ensures
            final(self).pc == old(self).pc,
            final(self).stats.total_instrs == old(self).stats.total_instrs,
            old(self)@.mmu.coherent() && old(self)@.mmu.cache_enabled
                ==> final(self)@.mmu.coherent() && final(self)@.mmu.cache_enabled,
            final(self).clock == old(self).clock,
            final(self).wf(),
            final(self)@ == old(self)@.operands_read(instr),
    {
        let slot = self.load_operands(instr);
        self.pipeline.slots[1] = slot;
        proof {
            assert(self@.pipeline.slots =~= old(self)@.with_slot(1, slot).pipeline.slots);
            assert(self@ =~~= old(self)@.with_slot(1, slot));
        }
        self.redirect(instr.code().unwrap());
    }

    /// Perform decode stage of pipeline
    pub fn pl_decode_stage(&mut self) -> (r: Result<(), SimErr>)
        requires
            old(self).wf(),
        ensures
            final(self).pc == old(self).pc,
            final(self).stats.total_instrs == old(self).stats.total_instrs,
            old(self)@.mmu.coherent() && old(self)@.mmu.cache_enabled
                ==> final(self)@.mmu.coherent() && final(self)@.mmu.cache_enabled,
            final(self).clock == old(self).clock,
            final(self).wf(),
            final(self)@ == old(self)@.decoded().0,
            r == old(self)@.decoded().1,
            forall|i: int|
                2 <= i < NUM_SLOTS ==> same_work(
                    #[trigger] final(self)@.slot(i),
                    old(self)@.slot(i),
                ),
    {
        if self.pipeline.slots[1].valid == false {
            return Ok(());
        }
        // Decode the instruction and load it into the pipeline

        let instr = match decode_instr(self.pipeline.slots[1].instr_backing) {
            Ok(instr) => instr,
            Err(e) => {
                return Err(e);
            },
        };
        self.pipeline.slots[1].instr = instr;
        let ghost loaded = self@;
        proof {
            assert(loaded.pipeline.slots =~= old(self)@.with_slot(
                1,
                Slot { instr, ..old(self)@.slot(1) },
            ).pipeline.slots);
            assert(loaded =~~= old(self)@.with_slot(1, Slot { instr, ..old(self)@.slot(1) }));
        }

        let use_regs = instr.uses_regs();
        if self.caused_data_hazards(1, &use_regs) {
            // Caused hazard - can't continue executing pipeline-stage
            // Indicate that this instruction threw the hazard
            self.pipeline.hazard_thrower = Some(1);
            proof {
                assert(self@ =~~= old(self)@.decoded().0);
            }
            return Ok(());
        } else {
            // Didn't cause hazard
            if let Some(c) = self.pipeline.hazard_thrower {
                // If we are the one that caused the hazard, and its no longer an issue, reenable
                // the entire pipeline
                if c == 1 {
                    self.release();
                }
            }
        }
        let ghost ready = self@;
        proof {
            assert(ready == if loaded.pipeline.hazard_thrower == Some(1usize) {
                loaded.released()
            } else {
                loaded
            });
            assert forall|i: int| 2 <= i < NUM_SLOTS implies same_work(
                #[trigger] ready.slot(i),
                old(self)@.slot(i),
            ) by {
                assert(loaded.slot(i) == old(self)@.slot(i));
            }
        }

        // An instruction that names a register that does not exist has no operands to read
        if !instr.has_operands() {
            proof {
                assert(old(self)@.decoded().0 == ready);
            }
            return Err(SimErr::InstrDecode);
        }
        self.read_operands(instr);
        proof {
            assert(old(self)@.decoded().0 == ready.operands_read(instr));
            assert forall|i: int| 2 <= i < NUM_SLOTS implies #[trigger] self@.slot(i) == ready.slot(
                i,
            ) by {}
        }
        Ok(())
    }

    /// Whether the execute stage can run: its slot holds nothing, or a decoded instruction
    pub fn can_execute(&self) -> (b: bool)
        ensures
            b == self@.can_execute(),
    {
        !self.pipeline.slots[2].valid || self.pipeline.slots[2].instr.code().is_some()
    }

    /// Whether the writeback stage can run: its slot holds no word that encodes no
    /// instruction, and no result for a register that does not exist
    pub fn can_write_back(&self) -> (b: bool)
        ensures
            b == self@.can_write_back(),
    {
        let slot = self.pipeline.slots[4];
        if !slot.valid {
            return true;
        }
        if slot.instr == Instr::Invalid {
            return false;
        }
        match slot.instr.code() {
            Some(code) => {
                if code.is_alu() || code.is_alu_imm() || code.is_load() || code == InstrCode::Lui {
                    slot.instr.rs3().in_file()
                } else {
                    true
                }
            },
            None => true,
        }
    }

    /// Perform execute stage of pipeline. A word that encodes no instruction must not
    /// reach this stage.
    pub fn pl_execute_stage(&mut self) -> (r: Result<(), SimErr>)
        requires
            old(self).wf(),
            old(self)@.can_execute(),
        ensures
            r is Err ==> r == Err::<(), SimErr>(SimErr::DivByZero),
            final(self).pc == old(self).pc,
            old(self)@.mmu.coherent() && old(self)@.mmu.cache_enabled
                ==> final(self)@.mmu.coherent() && final(self)@.mmu.cache_enabled,
            final(self).clock == old(self).clock,
            final(self).wf(),
            final(self)@ == old(self)@.executed().0,
            r == old(self)@.executed().1,
            final(self).stats.total_instrs == if old(self)@.slot(2).valid {
                bump(old(self).stats.total_instrs)
            } else {
                old(self).stats.total_instrs
            },
            final(self)@.slot(3) == old(self)@.slot(3),
            final(self)@.slot(4) == old(self)@.slot(4),
            old(self)@.slot(2).valid && old(self)@.slot(2).instr.code() is Some && old(self)@.slot(
                2,
            ).instr.code()->Some_0.is_branch() ==> final(self).pipeline.pc
                == old(self)@.branch_target(),
    {
        if self.pipeline.slots[2].valid == false {
            return Ok(());
        }
        let mut slot = self.pipeline.slots[2];
        let code = match slot.instr.code() {
            Some(code) => code,
            None => {
                return Ok(());
            },
        };
        self.stats.total_instrs = self.stats.total_instrs.saturating_add(1);

        if code.is_load() {
            // (rs1 + offset) address calculation
            self.stats.load_instrs = self.stats.load_instrs.saturating_add(1);
            slot.addr = VAddr(slot.rs1.wrapping_add(#[verifier::truncate] (slot.offset as u32)));
        } else if code.is_store() {
            // (rs1 + offset) address calculation
            self.stats.store_instrs = self.stats.store_instrs.saturating_add(1);
            slot.addr = VAddr(slot.rs1.wrapping_add(#[verifier::truncate] (slot.offset as u32)));
        } else if code == InstrCode::Jmpr {
            // (pc + offset) address calculation
            self.stats.control_instrs = self.stats.control_instrs.saturating_add(1);
            slot.addr = VAddr(
                self.pipeline.pc.0.wrapping_add(#[verifier::truncate] (slot.offset as u32)),
            );
        } else if code.is_branch() {
            // (comparison & (pc + offset)) address calculation
            self.stats.control_instrs = self.stats.control_instrs.saturating_add(1);

            let is_true = branch_taken(code, slot.rs3, slot.rs1);

            // Flush invalid pipeline stages
            self.pipeline.slots[0] = Slot::default();
            self.pipeline.slots[1] = Slot::default();

            // Assign the target-address to one either true-target or false-target
            if is_true {
                slot.addr = VAddr(slot.pc.0.wrapping_add(#[verifier::truncate] (slot.imm as u32)));
            } else {
                slot.addr = VAddr(slot.pc.0.wrapping_add(4));
            }

            self.pipeline.pc = slot.addr;

            // We now know the correct pipeline-pc so start fetching again
            self.pipeline.disable = false;
        } else if code == InstrCode::Lui {
            self.stats.arithmetic_instrs = self.stats.arithmetic_instrs.saturating_add(1);
            slot.rs3 = (#[verifier::truncate] (slot.imm as u32)) << 12;
        } else if code.is_alu() {
            if code == InstrCode::Div && slot.rs2 == 0 {
                proof {
                    assert(self@ =~~= old(self)@.executed().0);
                }
                return Err(SimErr::DivByZero);
            }
            self.stats.arithmetic_instrs = self.stats.arithmetic_instrs.saturating_add(1);
            slot.rs3 = alu_result(code, slot.rs1, slot.rs2);
        } else if code.is_alu_imm() {
            self.stats.arithmetic_instrs = self.stats.arithmetic_instrs.saturating_add(1);
            slot.rs3 = alu_imm_result(code, slot.rs1, slot.imm);
        } else if code == InstrCode::Call || code == InstrCode::Ret || code == InstrCode::Int0 {
            self.stats.control_instrs = self.stats.control_instrs.saturating_add(1);
        }
        self.pipeline.slots[2] = slot;
        proof {
            assert(self@.pipeline.slots =~= old(self)@.executed().0.pipeline.slots);
            assert(self@ =~~= old(self)@.executed().0);
        }

        Ok(())
    }
}


/// The first of two results that is an error; `Ok` where neither is
fn first_err(a: Result<(), SimErr>, b: Result<(), SimErr>) -> (r: Result<(), SimErr>)
    ensures
        r == crate::machine::first_error(a, b),
{
    if a.is_err() {
        a
    } else {
        b
    }
}

impl Simulator {
    /// Memory stage of `ret`: read link register from stack
    fn mem_ret(&mut self) -> (r: Result<(), SimErr>)
        requires
            old(self).wf(),
        ensures
            final(self).pipeline.pc == old(self).pipeline.pc,
            final(self).stats.total_instrs == old(self).stats.total_instrs,
            old(self)@.mmu.coherent() && old(self)@.mmu.cache_enabled
                ==> final(self)@.mmu.coherent() && final(self)@.mmu.cache_enabled,
            final(self).clock == old(self).clock,
            final(self).wf(),
            final(self)@ == old(self)@.ret_mem().0,
            r == old(self)@.ret_mem().1,
    {
        let addr_to_read = self.read_reg(Register::R15);
        if addr_to_read % 4 != 0 {
            return Err(SimErr::Misaligned);
        }
        let mut reader = zero_bytes(4);
        match self.mem_read(VAddr(addr_to_read), &mut reader) {
            Ok(()) => {},
            Err(e) => {
                return Err(e);
            },
        }
        proof {
            old(self)@.lemma_load_len(addr_to_read, 4);
        }
        let new_link = as_u32_le(&reader);
        self.pipeline.slots[3].rs3 = new_link;

        self.pc = self.pipeline.slots[3].addr;
        proof {
            assert(self@.pipeline.slots =~= old(self)@.ret_mem().0.pipeline.slots);
            assert(self@ =~~= old(self)@.ret_mem().0);
        }
        Ok(())
    }

    /// Memory stage of `call`: push the link register, and let it hold the return address
    fn mem_call(&mut self) -> (r: Result<(), SimErr>)
        requires
            old(self).wf(),
        ensures
            final(self).pipeline.pc == old(self).pipeline.pc,
            final(self).stats.total_instrs == old(self).stats.total_instrs,
            old(self)@.mmu.coherent() && old(self)@.mmu.cache_enabled
                ==> final(self)@.mmu.coherent() && final(self)@.mmu.cache_enabled,
            final(self).clock == old(self).clock,
            final(self).wf(),
            exists|rnd: u32|
                final(self)@ == (#[trigger] old(self)@.call_mem(rnd)).0 && r == old(self)@.call_mem(
                    rnd,
                ).1,
    {
        // Make room on stack
        let sp = self.read_reg(Register::R15).wrapping_sub(4);
        self.write_reg(Register::R15, sp);
        if sp % 4 != 0 {
            proof {
                assert(self@ == old(self)@.call_mem(0).0);
            }
            return Err(SimErr::Misaligned);
        }
        // Push link register

        let mut prev_ra = le_bytes(self.read_reg(Register::R14), 4);
        let ghost pushed = prev_ra@;
        let ghost before = self@;
        let stored = self.mem_write(VAddr(sp), &mut prev_ra);
        let ghost rnd = choose|rnd: u32|
            self@ == (#[trigger] before.store(sp, pushed, rnd)).0 && stored == before.store(
                sp,
                pushed,
                rnd,
            ).1;
        match stored {
            Ok(_) => {},
            Err(e) => {
                proof {
                    assert(self@ == old(self)@.call_mem(rnd).0);
                }
                return Err(e);
            },
        }

        // Update link-register to return address
        let link = self.pc.0.wrapping_add(4);
        self.write_reg(Register::R14, link);

        self.pc = self.pipeline.slots[3].addr;
        proof {
            assert(self@ =~~= old(self)@.call_mem(rnd).0);
        }
        Ok(())
    }

    /// Memory stage of a load of `width` bytes
    fn mem_load(&mut self, width: usize) -> (r: Result<(), SimErr>)
        requires
            old(self).wf(),
            width <= 4,
        ensures
            final(self).pc == old(self).pc,
            final(self).pipeline.pc == old(self).pipeline.pc,
            final(self).stats.total_instrs == old(self).stats.total_instrs,
            old(self)@.mmu.coherent() && old(self)@.mmu.cache_enabled
                ==> final(self)@.mmu.coherent() && final(self)@.mmu.cache_enabled,
            final(self).clock == old(self).clock,
            final(self).wf(),
            final(self)@ == old(self)@.load_mem(width).0,
            r == old(self)@.load_mem(width).1,
    {
        let addr = self.pipeline.slots[3].addr;
        if addr.0 % 4 != 0 {
            return Err(SimErr::Misaligned);
        }
        let mut reader = zero_bytes(width);
        match self.mem_read(addr, &mut reader) {
            Ok(()) => {},
            Err(e) => {
                return Err(e);
            },
        }
        proof {
            old(self)@.lemma_load_len(addr.0, width as int);
        }
        self.pipeline.slots[3].rs3 = le_word(&reader);
        proof {
            assert(self@.pipeline.slots =~= old(self)@.load_mem(width).0.pipeline.slots);
            assert(self@ =~~= old(self)@.load_mem(width).0);
        }
        Ok(())
    }

    /// Memory stage of a store of `width` bytes
    fn mem_store(&mut self, width: usize) -> (r: Result<(), SimErr>)
        requires
            old(self).wf(),
            width == 1 || width == 2 || width == 4,
        ensures
            final(self).pc == old(self).pc,
            final(self).pipeline.pc == old(self).pipeline.pc,
            final(self).stats.total_instrs == old(self).stats.total_instrs,
            old(self)@.mmu.coherent() && old(self)@.mmu.cache_enabled
                ==> final(self)@.mmu.coherent() && final(self)@.mmu.cache_enabled,
            final(self).clock == old(self).clock,
            final(self).wf(),
            exists|rnd: u32|
                final(self)@ == (#[trigger] old(self)@.store_mem(width, rnd)).0 && r == old(
                    self,
                )@.store_mem(width, rnd).1,
    {
        let addr = self.pipeline.slots[3].addr;
        if addr.0 % (width as u32) != 0 {
            proof {
                assert(self@ == old(self)@.store_mem(width, 0).0);
            }
            return Err(SimErr::Misaligned);
        }
        let mut writer = le_bytes(self.pipeline.slots[3].rs3, width);
        let ghost data = writer@;
        let stored = self.mem_write(addr, &mut writer);
        let ghost rnd = choose|rnd: u32|
            self@ == (#[trigger] old(self)@.store(addr.0, data, rnd)).0 && stored == old(
                self,
            )@.store(addr.0, data, rnd).1;
        proof {
            assert(self@ == old(self)@.store_mem(width, rnd).0);
        }
        match stored {
            Ok(_) => Ok(()),
            Err(e) => Err(e),
        }
    }

    /// Memory stage of `int0`: read Interrupt-table+0x0 to find address that is responsible
    /// for handling Int0
    fn mem_int0(&mut self) -> (r: Result<(), SimErr>)
        requires
            old(self).wf(),
        ensures
            final(self).stats.total_instrs == old(self).stats.total_instrs,
            old(self)@.mmu.coherent() && old(self)@.mmu.cache_enabled
                ==> final(self)@.mmu.coherent() && final(self)@.mmu.cache_enabled,
            final(self).clock == old(self).clock,
            final(self).wf(),
            final(self)@ == old(self)@.int0_mem().0,
            r == old(self)@.int0_mem().1,
    {
        let mut reader = zero_bytes(4);
        match self.mem_read(VAddr(INT0_VECTOR), &mut reader) {
            Ok(()) => {},
            Err(e) => {
                return Err(e);
            },
        }
        proof {
            old(self)@.lemma_load_len(INT0_VECTOR, 4);
        }
        let addr = as_u32_le(&reader);

        self.pipeline.slots[3].addr = VAddr(addr);

        // Flush invalid pipeline stages and redirect pipeline-fetches to interrupt handler
        self.pipeline.slots[0] = Slot::default();
        self.pipeline.slots[1] = Slot::default();
        self.pipeline.slots[2] = Slot::default();

        self.pipeline.pc = VAddr(addr);
        self.pc = self.pipeline.slots[3].addr;

        // We now know the correct pipeline-pc so start fetching again
        self.pipeline.disable = false;
        proof {
            assert(self@.pipeline.slots =~= old(self)@.int0_mem().0.pipeline.slots);
            assert(self@ =~~= old(self)@.int0_mem().0);
        }
        Ok(())
    }

    /// Perform memory stage of pipeline
    pub fn pl_mem_stage(&mut self) -> (r: Result<(), SimErr>)
        requires
            old(self).wf(),
        ensures
            final(self).stats.total_instrs == old(self).stats.total_instrs,
            old(self)@.mmu.coherent() && old(self)@.mmu.cache_enabled
                ==> final(self)@.mmu.coherent() && final(self)@.mmu.cache_enabled,
            final(self).clock == old(self).clock,
            final(self).wf(),
            exists|rnd: u32|
                final(self)@ == (#[trigger] old(self)@.mem_stage(rnd)).0 && r == old(
                    self,
                )@.mem_stage(rnd).1,
            !old(self)@.takes_interrupt() ==> final(self).pipeline.pc == old(self).pipeline.pc,
    {
        if self.pipeline.slots[3].valid == false {
            proof {
                assert(self@ == old(self)@.mem_stage(0).0);
            }
            return Ok(());
        }
        let slot = self.pipeline.slots[3];
        let code = match slot.instr.code() {
            Some(code) => code,
            None => {
                self.pc.0 = slot.pc.0.wrapping_add(4);
                proof {
                    assert(self@ =~~= old(self)@.mem_stage(0).0);
                }
                return Ok(());
            },
        };

        if code == InstrCode::Ret {
            let r = self.mem_ret();
            proof {
                assert(self@ == old(self)@.mem_stage(0).0);
            }
            r
        } else if code.is_branch() {
            // Instructions that rely on `addr` for control-flow
            self.pc = slot.addr;
            proof {
                assert(self@ =~~= old(self)@.mem_stage(0).0);
            }
            Ok(())
        } else if code == InstrCode::Jmpr {
            self.pc = VAddr(self.pc.0.wrapping_add(#[verifier::truncate] (slot.offset as u32)));
            proof {
                assert(self@ =~~= old(self)@.mem_stage(0).0);
            }
            Ok(())
        } else if code == InstrCode::Call {
            let r = self.mem_call();
            proof {
                let rnd = choose|rnd: u32|
                    self@ == (#[trigger] old(self)@.call_mem(rnd)).0 && r == old(self)@.call_mem(
                        rnd,
                    ).1;
                assert(self@ == old(self)@.mem_stage(rnd).0);
            }
            r
        } else {
            // Everything else, just increment pc
            self.pc.0 = slot.pc.0.wrapping_add(4);
            let ghost next = self@;
            proof {
                assert(next =~~= (Machine {
                    pc: VAddr(slot.pc.0.wrapping_add(4)),
                    ..old(self)@
                }));
            }

            // Handle memory operations
            if code.is_load() {
                let r = self.mem_load(code.width());
                proof {
                    assert(self@ == old(self)@.mem_stage(0).0);
                }
                r
            } else if code.is_store() {
                let r = self.mem_store(code.width());
                proof {
                    let rnd = choose|rnd: u32|
                        self@ == (#[trigger] next.store_mem(code.width(), rnd)).0 && r
                            == next.store_mem(code.width(), rnd).1;
                    assert(self@ == old(self)@.mem_stage(rnd).0);
                }
                r
            } else if code == InstrCode::Int0 {
                let r = self.mem_int0();
                proof {
                    assert(self@ == old(self)@.mem_stage(0).0);
                }
                r
            } else {
                proof {
                    assert(self@ == old(self)@.mem_stage(0).0);
                }
                Ok(())
            }
        }
    }

    /// Perform writeback stage of pipeline. A word that encodes no instruction must not
    /// reach this stage.
    pub fn pl_writeback_stage(&mut self) -> (r: Result<(), SimErr>)
        requires
            old(self).wf(),
            old(self)@.can_write_back(),
        ensures
            r is Ok,
            final(self).pc == old(self).pc,
            final(self).pipeline.pc == old(self).pipeline.pc,
            final(self).stats.total_instrs == old(self).stats.total_instrs,
            old(self)@.mmu.coherent() && old(self)@.mmu.cache_enabled
                ==> final(self)@.mmu.coherent() && final(self)@.mmu.cache_enabled,
            final(self).clock == old(self).clock,
            final(self).wf(),
            final(self)@ == old(self)@.written_back().0,
            r == old(self)@.written_back().1,
    {
        if self.pipeline.slots[4].valid == false {
            return Ok(());
        }
        let slot = self.pipeline.slots[4];
        let code = match slot.instr.code() {
            Some(code) => code,
            None => {
                return Ok(());
            },
        };

        // Write rs3 into register-file if applicable
        if code.is_alu() || code.is_alu_imm() || code.is_load() || code == InstrCode::Lui {
            self.write_reg(slot.instr.rs3(), slot.rs3);
        } else if code == InstrCode::Ret {
            // Update link register
            self.write_reg(Register::R14, slot.rs3);

            // Increase stack pointer
            let addr_to_read = self.read_reg(Register::R15);
            self.write_reg(Register::R15, addr_to_read.wrapping_add(4));
        }
        Ok(())
    }

    /// Advance pipeline values to get it ready for the next clock-cycle
    /// This is executed after a cycle is completed
    pub fn advance_pipeline(&mut self) -> (r: Result<(), SimErr>)
        requires
            old(self).wf(),
        ensures
            final(self).pc == old(self).pc,
            final(self).pipeline.pc == old(self).pipeline.pc,
            final(self).stats.total_instrs == old(self).stats.total_instrs,
            old(self)@.mmu.coherent() && old(self)@.mmu.cache_enabled
                ==> final(self)@.mmu.coherent() && final(self)@.mmu.cache_enabled,
            final(self).clock == old(self).clock,
            final(self).wf(),
            r is Ok,
            final(self)@ == old(self)@.advanced(),
    {
        let mut counter: usize = 4;
        let ghost s = self@.pipeline.slots;

        while counter > 0
            invariant
                counter <= 4,
                self.wf(),
                s == old(self)@.pipeline.slots,
                self@ == (Machine {
                    pipeline: crate::pipeline::PipelineView {
                        slots: self@.pipeline.slots,
                        ..old(self)@.pipeline
                    },
                    ..old(self)@
                }),
                self@.pipeline.slots == if counter == 4 {
                    s
                } else if counter == 3 {
                    Machine::shifted(s, 4)
                } else if counter == 2 {
                    Machine::shifted(Machine::shifted(s, 4), 3)
                } else if counter == 1 {
                    Machine::shifted(Machine::shifted(Machine::shifted(s, 4), 3), 2)
                } else {
                    Machine::shifted(
                        Machine::shifted(Machine::shifted(Machine::shifted(s, 4), 3), 2),
                        1,
                    )
                },
            decreases counter,
        {
            let ghost cur = self@.pipeline.slots;
            if !self.pipeline.slots[counter - 1].disable {
                self.pipeline.slots[counter] = self.pipeline.slots[counter - 1];
                self.pipeline.slots[counter - 1] = Slot::default();
            }
            proof {
                assert(self@.pipeline.slots =~= Machine::shifted(cur, counter as int));
            }
            counter -= 1;
        }
        proof {
            assert(self@ =~~= old(self)@.advanced());
        }
        Ok(())
    }

    /// Move the one instruction in flight to the slot of the next stage, with pipelining off
    fn advance_single(&mut self)
        requires
            old(self).wf(),
        ensures
            final(self).pc == old(self).pc,
            final(self).pipeline.pc == old(self).pipeline.pc,
            final(self).stats.total_instrs == old(self).stats.total_instrs,
            old(self)@.mmu.coherent() && old(self)@.mmu.cache_enabled
                ==> final(self)@.mmu.coherent() && final(self)@.mmu.cache_enabled,
            final(self).clock == old(self).clock,
            final(self).wf(),
            final(self)@ == old(self)@.advanced_single(),
    {
        let stage = self.pipeline.cur_stage;
        let moved = self.pipeline.slots[stage];
        let mut counter: usize = NUM_SLOTS;
        while counter > 0
            invariant
                counter <= NUM_SLOTS,
                stage < NUM_SLOTS,
                stage == old(self)@.pipeline.cur_stage,
                moved == old(self)@.slot(stage as int),
                self@ == (Machine {
                    pipeline: crate::pipeline::PipelineView {
                        slots: self@.pipeline.slots,
                        ..old(self)@.pipeline
                    },
                    ..old(self)@
                }),
                forall|k: int|
                    0 <= k < NUM_SLOTS ==> self@.pipeline.slots[k] == if k < counter {
                        old(self)@.slot(k)
                    } else if counter <= stage && k == stage + 1 {
                        moved
                    } else {
                        Slot::empty()
                    },
            decreases counter,
        {
            counter -= 1;
            if counter == stage && counter != 4 {
                self.pipeline.slots[counter + 1] = moved;
            }
            self.pipeline.slots[counter] = Slot::default();
        }

        self.pipeline.cur_stage = (self.pipeline.cur_stage + 1) % 5;
        proof {
            assert(self@.pipeline.slots =~= old(self)@.advanced_single().pipeline.slots);
            assert(self@ =~~= old(self)@.advanced_single());
        }
    }

    /// Stop the simulator where `r` is an error
    fn halt_on(&mut self, r: Result<(), SimErr>)
        ensures
            final(self).pc == old(self).pc,
            final(self).pipeline.pc == old(self).pipeline.pc,
            final(self).stats.total_instrs == old(self).stats.total_instrs,
            old(self)@.mmu.coherent() && old(self)@.mmu.cache_enabled
                ==> final(self)@.mmu.coherent() && final(self)@.mmu.cache_enabled,
            final(self).clock == old(self).clock,
            final(self)@ == old(self)@.halted_on(r),
            old(self).wf() ==> final(self).wf(),
    {
        if r.is_err() {
            self.online = false;
        }
        proof {
            assert(self@ =~~= old(self)@.halted_on(r));
        }
    }

    /// Mark the word in the decode stage as one that encodes no instruction. If this
    /// instruction reaches the `execute` stage it will cause a fault
    fn poison(&mut self)
        requires
            old(self).wf(),
        ensures
            final(self).pc == old(self).pc,
            final(self).stats.total_instrs == old(self).stats.total_instrs,
            old(self)@.mmu.coherent() && old(self)@.mmu.cache_enabled
                ==> final(self)@.mmu.coherent() && final(self)@.mmu.cache_enabled,
            final(self).clock == old(self).clock,
            final(self).wf(),
            final(self)@ == old(self)@.poisoned(),
            forall|i: int| 2 <= i < NUM_SLOTS ==> final(self)@.slot(i) == old(self)@.slot(i),
    {
        self.pipeline.slots[1].instr = Instr::Invalid;
        proof {
            assert(self@.pipeline.slots =~= old(self)@.poisoned().pipeline.slots);
            assert(self@ =~~= old(self)@.poisoned());
        }
    }

    /// Single-step one clock-cycle with the pipeline enabled
    pub fn step_pipeline(&mut self) -> (r: Result<(), SimErr>)
        requires
            old(self).wf(),
        ensures
            old(self)@.mmu.coherent() && old(self)@.mmu.cache_enabled
                ==> final(self)@.mmu.coherent() && final(self)@.mmu.cache_enabled,
            final(self).clock == old(self).clock,
            final(self).wf(),
            exists|rnd: u32|
                final(self)@ == (#[trigger] old(self)@.cycle(rnd)).0 && r == old(self)@.cycle(rnd).1,
            old(self).online && old(self).pipelining_enabled ==> final(self).stats.total_instrs
                == old(self)@.counted_total(),
            old(self).pipelining_enabled && old(self)@.takes_branch() && !old(
                self,
            )@.takes_interrupt() ==> final(self).pipeline.pc == VAddr(
                old(self)@.slot(2).pc.0.wrapping_add(old(self)@.slot(2).imm as u32),
            ),
    {
        // If we are waiting for a memory load/write to finish, just return until that is done
        match self.process_mem_stalls(true, true) {
            Ok(true) => {
                proof {
                    assert(self@ == old(self)@.cycle(0).0);
                }
                return Ok(());
            },
            Ok(false) => {},
            Err(e) => {
                self.halt_on(Err(e));
                proof {
                    assert(self@ == old(self)@.cycle(0).0);
                }
                return Err(e);
            },
        }

        // Execute pipeline stages
        let fetched = if !self.pipeline.disable {
            self.pl_fetch_stage()
        } else {
            Ok(())
        };

        // If we failed to decode, insert an `invalid` instruction into the pipeline. If this
        // instruction reaches the `execute` stage it will cause a fault
        if let Err(_) = self.pl_decode_stage() {
            self.poison();
        }
        // A word that encodes no instruction and was not flushed is a fault
        let executed = if self.can_execute() {
            self.pl_execute_stage()
        } else {
            Err(SimErr::InstrDecode)
        };
        let ghost m3 = self@;
        let accessed = self.pl_mem_stage();
        let ghost rnd = choose|rnd: u32|
            self@ == (#[trigger] m3.mem_stage(rnd)).0 && accessed == m3.mem_stage(rnd).1;
        let written = if self.can_write_back() {
            self.pl_writeback_stage()
        } else {
            Err(SimErr::InstrDecode)
        };

        // Advance pipeline to ready it for the next clock-cycle
        let _ = self.advance_pipeline();

        let r = first_err(fetched, first_err(executed, first_err(accessed, written)));
        self.halt_on(r);
        proof {
            assert(self@ == old(self)@.cycle(rnd).0);
        }
        r
    }

    /// Single-step one clock-cycle without pipelining
    pub fn step_no_pipeline(&mut self) -> (r: Result<(), SimErr>)
        requires
            old(self).wf(),
        ensures
            old(self)@.mmu.coherent() && old(self)@.mmu.cache_enabled
                ==> final(self)@.mmu.coherent() && final(self)@.mmu.cache_enabled,
            final(self).clock == old(self).clock,
            final(self).wf(),
            exists|rnd: u32|
                final(self)@ == (#[trigger] old(self)@.cycle_single(rnd)).0 && r == old(
                    self,
                )@.cycle_single(rnd).1,
            old(self).online && !old(self).pipelining_enabled ==> final(self).stats.total_instrs
                == old(self)@.counted_total(),
            !old(self).pipelining_enabled && old(self)@.takes_branch() ==> final(self).pipeline.pc
                == VAddr(old(self)@.slot(2).pc.0.wrapping_add(old(self)@.slot(2).imm as u32)),
    {
        let stage = self.pipeline.cur_stage;
        let ghost rnd: u32 = 0;
        if stage == 0 || stage == 3 {
            match self.process_mem_stalls(stage == 0, stage == 3) {
                Ok(true) => {
                    proof {
                        assert(self@ == old(self)@.cycle_single(0).0);
                    }
                    return Ok(());
                },
                Ok(false) => {},
                Err(e) => {
                    self.halt_on(Err(e));
                    proof {
                        assert(self@ == old(self)@.cycle_single(0).0);
                    }
                    return Err(e);
                },
            }
        }
        let ghost m = self@;
        let r = if stage == 0 {
            self.pl_fetch_stage()
        } else if stage == 1 {
            let decoded = self.pl_decode_stage();
            if decoded.is_err() {
                self.poison();
            }
            decoded
        } else if stage == 2 {
            if self.can_execute() {
                self.pl_execute_stage()
            } else {
                Err(SimErr::InstrDecode)
            }
        } else if stage == 3 {
            let accessed = self.pl_mem_stage();
            proof {
                rnd = choose|rnd: u32|
                    self@ == (#[trigger] m.mem_stage(rnd)).0 && accessed == m.mem_stage(rnd).1;
            }
            accessed
        } else if self.can_write_back() {
            self.pl_writeback_stage()
        } else {
            Err(SimErr::InstrDecode)
        };

        // Advance pipeline to ready it for the next clock-cycle
        self.advance_single();
        self.halt_on(r);
        proof {
            assert(self@ == old(self)@.cycle_single(rnd).0);
        }
        r
    }

    /// Single-step one clock-cycle. A simulator that is stopped stays as it is. The
    /// result is the first error of this cycle; every error but a word that cannot be
    /// decoded stops the simulator.
    pub fn step(&mut self) -> (r: Result<(), SimErr>)
        requires
            old(self).wf(),
            old(self).online ==> old(self).clock < u32::MAX,
        ensures
            old(self)@.mmu.coherent() && old(self)@.mmu.cache_enabled
                ==> final(self)@.mmu.coherent() && final(self)@.mmu.cache_enabled,
            final(self).wf(),
            final(self)@.reg(Register::R0) == 0,
            exists|rnd: u32|
                final(self)@ == (#[trigger] old(self)@.stepped(rnd)).0 && r == old(self)@.stepped(
                    rnd,
                ).1,
            final(self).clock == if old(self).online {
                old(self).clock + 1
            } else {
                old(self).clock as int
            },
            !old(self).online ==> final(self)@ == old(self)@,
            r is Err ==> !final(self).online,
            final(self).stats.total_instrs == old(self)@.counted_total(),
            old(self)@.takes_branch() && !old(self)@.takes_interrupt()
                ==> final(self).pipeline.pc == VAddr(
                old(self)@.slot(2).pc.0.wrapping_add(old(self)@.slot(2).imm as u32),
            ),
    {
        if !self.online {
            proof {
                assert(self@ == old(self)@.stepped(0).0);
            }
            return Ok(());
        }
        let ghost rnd: u32 = 0;
        let r = if self.pipelining_enabled {
            let r = self.step_pipeline();
            proof {
                rnd = choose|rnd: u32|
                    self@ == (#[trigger] old(self)@.cycle(rnd)).0 && r == old(self)@.cycle(rnd).1;
            }
            r
        } else {
            let r = self.step_no_pipeline();
            proof {
                rnd = choose|rnd: u32|
                    self@ == (#[trigger] old(self)@.cycle_single(rnd)).0 && r == old(
                        self,
                    )@.cycle_single(rnd).1;
            }
            r
        };

        self.clock += 1;
        proof {
            assert(self@ =~~= old(self)@.stepped(rnd).0);
        }
        r
    }
}


impl Simulator {
    /// Step until a breakpoint is reached, an error occurs, or `max_steps` steps are made.
    /// The first step is made whatever the breakpoints are. `Ok(true)` says that a
    /// breakpoint ended the run.
    pub fn run(&mut self, max_steps: usize) -> (r: Result<bool, SimErr>)
        requires
            old(self).wf(),
        ensures
            final(self).wf(),
            final(self)@.reg(Register::R0) == 0,
            old(self)@.mmu.coherent() && old(self)@.mmu.cache_enabled
                ==> final(self)@.mmu.coherent() && final(self)@.mmu.cache_enabled,
            exists|rnds: Seq<u32>|
                rnds.len() == max_steps && final(self)@ == (#[trigger] old(self)@.ran(
                    max_steps as nat,
                    rnds,
                    true,
                )).0 && r == old(self)@.ran(max_steps as nat, rnds, true).1,
    {
        let mut first = true;
        let mut left = max_steps;
        let ghost used: Seq<u32> = Seq::empty();
        proof {
            assert forall|rest: Seq<u32>| #[trigger]
                old(self)@.ran(max_steps as nat, used + rest, true) == self@.ran(
                    left as nat,
                    rest,
                    first,
                ) by {
                assert(used + rest =~= rest);
            }
        }
        while left > 0
            invariant
                self.wf(),
                left <= max_steps,
                used.len() == max_steps - left,
                first ==> left == max_steps,
                old(self)@.mmu.coherent() && old(self)@.mmu.cache_enabled ==> self@.mmu.coherent()
                    && self@.mmu.cache_enabled,
                forall|rest: Seq<u32>| #[trigger]
                    old(self)@.ran(max_steps as nat, used + rest, true) == self@.ran(
                        left as nat,
                        rest,
                        first,
                    ),
            decreases left,
        {
            let ghost pad = Seq::new(left as nat, |i: int| 0u32);
            // If breakpoint is hit, stop running
            if !first && fx_contains(&self.breakpoints, self.pc.0) {
                proof {
                    assert(old(self)@.ran(max_steps as nat, used + pad, true) == (
                        self@,
                        Ok::<bool, SimErr>(true),
                    ));
                }
                return Ok(true);
            }
            if self.online && self.clock == u32::MAX {
                proof {
                    assert(old(self)@.ran(max_steps as nat, used + pad, true) == (
                        self@,
                        Ok::<bool, SimErr>(false),
                    ));
                }
                return Ok(false);
            }
            let ghost before = self@;
            let stepped = self.step();
            let ghost rnd = choose|rnd: u32|
                self@ == (#[trigger] before.stepped(rnd)).0 && stepped == before.stepped(rnd).1;
            proof {
                assert forall|rest: Seq<u32>| #[trigger]
                    old(self)@.ran(max_steps as nat, used.push(rnd) + rest, true) == before.ran(
                        left as nat,
                        seq![rnd] + rest,
                        first,
                    ) by {
                    assert(used.push(rnd) + rest =~= used + (seq![rnd] + rest));
                }
                assert forall|rest: Seq<u32>|
                    (seq![rnd] + rest)[0] == rnd && #[trigger] (seq![rnd] + rest).skip(1)
                        == rest by {
                    assert((seq![rnd] + rest).skip(1) =~= rest);
                }
            }
            match stepped {
                Ok(()) => {},
                Err(e) => {
                    proof {
                        let tail = Seq::new((left - 1) as nat, |i: int| 0u32);
                        assert(old(self)@.ran(max_steps as nat, used.push(rnd) + tail, true) == (
                            self@,
                            Err::<bool, SimErr>(e),
                        ));
                    }
                    return Err(e);
                },
            }
            proof {
                used = used.push(rnd);
            }
            first = false;
            left -= 1;
        }
        proof {
            assert(used + Seq::<u32>::empty() =~= used);
            assert(old(self)@.ran(max_steps as nat, used + Seq::<u32>::empty(), true) == (
                self@,
                Ok::<bool, SimErr>(false),
            ));
        }
        Ok(false)
    }
}

} // verus!
