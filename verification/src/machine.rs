//! The simulated machine as a mathematical value, and one clock cycle of it
//! as functions from state to state.

use vstd::prelude::*;
use crate::cpu::{spec_decode, Instr, InstrCode, Register, NUM_REGS};
use crate::mmu::{aligned, MmuView, Perms, VAddr, L1_CACHE_STALL, RAM_STALL};
use crate::pipeline::{PipelineView, Slot, NUM_SLOTS};
use crate::simulator::SimErr;
use crate::{blank_screen, bump, le_seq, le_value, painted, Stats, VGA_BASE, VGA_CELLS};

verus! {

/// Address of the control register that the simulated program writes to.
pub const MMIO_BASE: u32 = 0x2000;

/// Written to the control register: stop the simulator.
pub const MMIO_SHUTDOWN: u8 = 0x41;

/// Written to the control register: put the clock counter into `R1`.
pub const MMIO_CLOCK: u8 = 0x42;

/// Written to the control register: put a random number into `R1`.
pub const MMIO_RANDOM: u8 = 0x43;

/// Last address at which a write reaches the screen.
pub const VGA_END: u32 = 0x10f0;

/// Address of the word that holds the handler of `int0`.
pub const INT0_VECTOR: u32 = 0;

/// The state of the simulator as mathematical values.
#[verifier::ext_equal]
pub struct Machine {
    pub mmu: MmuView,
    pub pipeline: PipelineView,
    /// The register file.
    pub regs: Seq<u32>,
    pub clock: u32,
    /// The architectural program counter.
    pub pc: VAddr,
    pub cur_mem: VAddr,
    pub cur_cache_set: (usize, usize),
    pub online: bool,
    /// The cells of the text screen.
    pub screen: Seq<u8>,
    pub pipelining_enabled: bool,
    pub breakpoints: Map<u32, usize>,
    pub stats: Stats,
}

/// The first of two results that is an error; `Ok` where neither is.
pub open spec fn first_error(a: Result<(), SimErr>, b: Result<(), SimErr>) -> Result<(), SimErr> {
    if a is Err {
        a
    } else {
        b
    }
}

/// Some register of `writes` is also one of `uses`.
pub open spec fn clash(writes: Seq<Register>, uses: Seq<Register>) -> bool {
    exists|w: int, u: int|
        0 <= w < writes.len() && 0 <= u < uses.len() && #[trigger] writes[w] == #[trigger] uses[u]
}

/// What a three-register operation computes from its operands. Arithmetic
/// wraps; shifts take the low five bits of the shift amount.
pub open spec fn alu(c: InstrCode, a: u32, b: u32) -> u32 {
    match c {
        InstrCode::Add => a.wrapping_add(b),
        InstrCode::Sub => a.wrapping_sub(b),
        InstrCode::Xor => a ^ b,
        InstrCode::Or => a | b,
        InstrCode::And => a & b,
        InstrCode::Shr => a >> (b & 31),
        InstrCode::Shl => a << (b & 31),
        InstrCode::Mul => a.wrapping_mul(b),
        InstrCode::Div => a / b,
        _ => 0,
    }
}

/// What an operation with an immediate computes from its operand.
pub open spec fn alu_imm(c: InstrCode, a: u32, imm: i32) -> u32 {
    match c {
        InstrCode::Addi => a.wrapping_add(imm as u32),
        InstrCode::Subi => a.wrapping_sub(imm as u32),
        InstrCode::Xori => a ^ (imm as u32),
        InstrCode::Ori => a | (imm as u32),
        InstrCode::Andi => a & (imm as u32),
        _ => 0,
    }
}

/// Whether a branch that compares `rs3` with `rs1` is taken.
pub open spec fn taken(c: InstrCode, rs3: u32, rs1: u32) -> bool {
    match c {
        InstrCode::Bne => rs3 != rs1,
        InstrCode::Beq => rs3 == rs1,
        InstrCode::Blt => rs3 < rs1,
        InstrCode::Bgt => rs3 > rs1,
        _ => false,
    }
}

/// The length of the next chunk of a store of `len` bytes.
pub open spec fn chunk_len(len: int) -> int {
    if len < 4 {
        len
    } else {
        4
    }
}

/// A store of `len` bytes at `v` splits into chunks that memory takes: each
/// has 1, 2 or 4 bytes and starts at a multiple of its length.
pub open spec fn storable(v: u32, len: int) -> bool {
    &&& len % 4 != 3
    &&& len >= 4 ==> aligned(v, 4)
    &&& len % 4 == 2 ==> aligned(v, 2)
}

/// A store of `data` at `v` in chunks of at most four bytes: the memory
/// afterwards, the error of the first chunk that failed, and the number of
/// bytes stored before it.
pub open spec fn store_chunks(mmu: MmuView, v: u32, data: Seq<u8>) -> (
    MmuView,
    Result<(), SimErr>,
    int,
)
    decreases data.len(),
{
    if data.len() == 0 {
        (mmu, Ok(()), 0)
    } else {
        let n = chunk_len(data.len() as int);
        let (m, r) = mmu.write(v, data.take(n));
        match r {
            Err(e) => (m, Err(e), 0),
            Ok(()) => {
                let (m2, r2, k) = store_chunks(m, v.wrapping_add(n as u32), data.skip(n));
                (m2, r2, n + k)
            },
        }
    }
}

impl Machine {
    /// The shape that every operation keeps. In particular `R0` holds zero.
    pub open spec fn wf(self) -> bool {
        &&& self.mmu.wf()
        &&& self.regs.len() == NUM_REGS
        &&& self.regs[0] == 0
        &&& self.pipeline.slots.len() == NUM_SLOTS
        &&& self.pipeline.cur_stage < NUM_SLOTS
        &&& self.screen.len() == VGA_CELLS
    }

    /// The state of a simulator that was just made: nothing mapped, every
    /// register and counter at zero, an empty pipeline, a blank screen.
    pub open spec fn initial() -> Machine {
        Machine {
            mmu: MmuView::initial(),
            pipeline: PipelineView::initial(),
            regs: Seq::new(NUM_REGS as nat, |i: int| 0u32),
            clock: 0,
            pc: VAddr(0),
            cur_mem: VAddr(0),
            cur_cache_set: (0, 0),
            online: true,
            screen: blank_screen(),
            pipelining_enabled: true,
            breakpoints: Map::empty(),
            stats: Stats::zero(),
        }
    }

    /// The content of a register.
    pub open spec fn reg(self, r: Register) -> u32 {
        self.regs[r.number()]
    }

    /// The state after `val` was written to `r`. A write to `R0` is discarded.
    pub open spec fn with_reg(self, r: Register, val: u32) -> Machine {
        if r == Register::R0 || !r.is_real() {
            self
        } else {
            Machine { regs: self.regs.update(r.number(), val), ..self }
        }
    }

    /// Slot `i` of the pipeline.
    pub open spec fn slot(self, i: int) -> Slot {
        self.pipeline.slots[i]
    }

    /// The state with slot `i` of the pipeline replaced.
    pub open spec fn with_slot(self, i: int, slot: Slot) -> Machine {
        Machine { pipeline: self.pipeline.with_slot(i, slot), ..self }
    }

    /// The state with slot `i` of the pipeline emptied.
    pub open spec fn flushed(self, i: int) -> Machine {
        self.with_slot(i, Slot::empty())
    }

    /// The state with the fetch cursor at `pc`.
    pub open spec fn fetching_at(self, pc: VAddr) -> Machine {
        Machine { pipeline: PipelineView { pc, ..self.pipeline }, ..self }
    }

    /// The state with fetching switched off or on.
    pub open spec fn with_disable(self, disable: bool) -> Machine {
        Machine { pipeline: PipelineView { disable, ..self.pipeline }, ..self }
    }

    /// The state with the given counters.
    pub open spec fn with_stats(self, stats: Stats) -> Machine {
        Machine { stats, ..self }
    }

    /// The state after an error stopped the simulator; the state itself after `Ok`.
    pub open spec fn halted_on(self, r: Result<(), SimErr>) -> Machine {
        if r is Err {
            Machine { online: false, ..self }
        } else {
            self
        }
    }

    /// The counters after a load that hit or missed the cache. Nothing is
    /// counted while caching is off.
    pub open spec fn counted(self, hit: bool) -> Stats {
        if !self.mmu.cache_enabled {
            self.stats
        } else if hit {
            Stats { cache_hits: bump(self.stats.cache_hits), ..self.stats }
        } else {
            Stats { cache_misses: bump(self.stats.cache_misses), ..self.stats }
        }
    }

    /// A load of `len` bytes at the virtual address `v`, counted.
    pub open spec fn load(self, v: u32, len: int) -> (Machine, Result<Seq<u8>, SimErr>) {
        if len == 0 {
            (self, Ok(Seq::empty()))
        } else {
            let (mmu, r) = self.mmu.read(v, len);
            match r {
                Ok((bytes, hit)) => (Machine { mmu, stats: self.counted(hit), ..self }, Ok(bytes)),
                Err(e) => (Machine { mmu, ..self }, Err(e)),
            }
        }
    }

    /// What a store of `data` at `v` does beyond memory, once the bytes are
    /// in memory: a store to the control register stops the simulator or
    /// fills `R1`, and a store to the text buffer shows on the screen.
    pub open spec fn mmio(self, v: u32, data: Seq<u8>, rnd: u32) -> (Machine, Result<u32, SimErr>) {
        if v == MMIO_BASE && data[0] == MMIO_SHUTDOWN {
            (Machine { online: false, ..self }, Err(SimErr::Shutdown))
        } else {
            let m = if v == MMIO_BASE && data[0] == MMIO_CLOCK {
                self.with_reg(Register::R1, self.clock)
            } else if v == MMIO_BASE && data[0] == MMIO_RANDOM {
                self.with_reg(Register::R1, rnd)
            } else {
                self
            };
            let m = if VGA_BASE <= v <= VGA_END {
                Machine { screen: painted(m.screen, v - VGA_BASE, data), ..m }
            } else {
                m
            };
            (m, Ok(1u32))
        }
    }

    /// A store of `data` at the virtual address `v`, where `rnd` is the
    /// random number that the control register hands out.
    pub open spec fn store(self, v: u32, data: Seq<u8>, rnd: u32) -> (Machine, Result<u32, SimErr>) {
        let (mmu, r, done) = store_chunks(self.mmu, v, data);
        let m = Machine { mmu, ..self };
        match r {
            Err(e) => (m, Err(e)),
            Ok(()) => m.mmio(v, data, rnd),
        }
    }

    /// The state after the page of `v` was mapped with `perms` to the page
    /// that an allocation takes where `seed` was drawn. A page that is mapped
    /// already, and memory without a free page, are errors.
    pub open spec fn page_mapped(self, v: u32, perms: u8, seed: u32) -> (
        Machine,
        Result<(), SimErr>,
    ) {
        match self.mmu.chosen_page(seed) {
            Some(page) => if self.mmu.mappable(v) {
                (Machine { mmu: self.mmu.with_mapping(v, perms, page), ..self }, Ok(()))
            } else {
                (self, Err(SimErr::MemOverlap))
            },
            None => (self, Err(SimErr::MemOverlap)),
        }
    }

    /// The number of cycles that an access to `v` still takes after the
    /// cycle that began it.
    pub open spec fn stall_time(self, v: u32) -> Result<usize, SimErr> {
        match self.mmu.translate(v, Perms::READ) {
            Ok(p) => Ok(
                if self.mmu.cached(p.0) {
                    (L1_CACHE_STALL - 1) as usize
                } else {
                    (RAM_STALL - 1) as usize
                },
            ),
            Err(e) => Err(e),
        }
    }

    /// The address that the instruction in the memory stage accesses, if it
    /// accesses memory.
    pub open spec fn mem_target(self) -> Option<u32> {
        match self.slot(3).instr.code() {
            Some(c) => if c == InstrCode::Ret {
                Some(self.reg(Register::R15))
            } else if c == InstrCode::Call {
                Some(self.reg(Register::R15).wrapping_sub(4))
            } else if c == InstrCode::Int0 {
                Some(INT0_VECTOR)
            } else if c.is_load() || c.is_store() {
                Some(self.slot(3).addr.0)
            } else {
                None
            },
            None => None,
        }
    }

    /// The state after a cycle in which slot `i` waited for memory, with
    /// `left` more cycles to wait.
    pub open spec fn waiting(self, i: int, left: usize) -> Machine {
        self.with_slot(i, Slot { mem_stall: Some(left), ..self.slot(i) }).with_stats(
            Stats { mem_clock: bump(self.stats.mem_clock), ..self.stats },
        )
    }

    /// The wait for memory of the fetch stage (where `check_0`) and of the
    /// memory stage (where `check_3`): `Ok(true)` where this cycle is spent
    /// waiting, `Ok(false)` where the stages may run.
    pub open spec fn stalled(self, check_0: bool, check_3: bool) -> (Machine, Result<bool, SimErr>) {
        let fetch = self.slot(0).mem_stall;
        if !self.pipeline.disable && check_0 && fetch is None {
            match self.stall_time(self.pipeline.pc.0) {
                Ok(t) => (self.waiting(0, t), Ok(true)),
                Err(e) => (self, Err(e)),
            }
        } else if !self.pipeline.disable && check_0 && fetch != Some(0usize) {
            (self.waiting(0, (fetch->Some_0 - 1) as usize), Ok(true))
        } else if check_3 {
            match self.slot(3).mem_stall {
                None => match self.mem_target() {
                    Some(a) => match self.stall_time(a) {
                        Ok(t) => (self.waiting(3, t), Ok(true)),
                        Err(e) => (self, Err(e)),
                    },
                    None => (self, Ok(false)),
                },
                Some(t) => if t != 0 {
                    (self.waiting(3, (t - 1) as usize), Ok(true))
                } else {
                    (self, Ok(false))
                },
            }
        } else {
            (self, Ok(false))
        }
    }

    /// The fetch stage: the word at the fetch cursor goes into slot 0, and
    /// the cursor moves on by four.
    pub open spec fn fetched(self) -> (Machine, Result<(), SimErr>) {
        let pc = self.pipeline.pc;
        if !aligned(pc.0, 4) {
            (self, Err(SimErr::Misaligned))
        } else {
            let (m, r) = self.load(pc.0, 4);
            match r {
                Err(e) => (m, Err(e)),
                Ok(bytes) => (
                    m.with_slot(
                        0,
                        Slot { instr_backing: le_value(bytes), valid: true, pc, ..m.slot(0) },
                    ).fetching_at(VAddr(pc.0.wrapping_add(4))),
                    Ok(()),
                ),
            }
        }
    }

    /// The instruction in a slot above `stage` writes a register of `uses`.
    pub open spec fn hazard(self, stage: int, uses: Seq<Register>) -> bool {
        exists|i: int|
            stage < i < NUM_SLOTS && (#[trigger] self.slot(i)).valid && clash(
                self.slot(i).instr.writes(),
                uses,
            )
    }

    /// The state after a hazard was found at `stage`: fetching stops, and the
    /// slots up to `stage` stay in place.
    pub open spec fn held(self, stage: int) -> Machine {
        Machine {
            pipeline: PipelineView {
                disable: true,
                slots: Seq::new(
                    self.pipeline.slots.len(),
                    |i: int|
                        if i <= stage {
                            Slot { disable: true, ..self.slot(i) }
                        } else {
                            self.slot(i)
                        },
                ),
                ..self.pipeline
            },
            ..self
        }
    }

    /// The state after a hazard cleared: fetching resumes, and every slot moves again.
    pub open spec fn released(self) -> Machine {
        Machine {
            pipeline: PipelineView {
                disable: false,
                slots: Seq::new(
                    self.pipeline.slots.len(),
                    |i: int| Slot { disable: false, ..self.slot(i) },
                ),
                ..self.pipeline
            },
            ..self
        }
    }

    /// Slot 1 after the decode stage read the operands of `instr` into it.
    pub open spec fn loaded_slot(self, instr: Instr) -> Slot {
        let s = self.slot(1);
        let rs1 = self.reg(instr.rs1());
        let rs2 = self.reg(instr.rs2());
        let rs3 = self.reg(instr.rs3());
        let imm = instr.imm();
        let offset = instr.offset();
        match instr.code() {
            Some(c) => if c.is_alu() {
                Slot { rs1, rs2, rs3, ..s }
            } else if c.is_alu_imm() || c.is_load() || c.is_store() {
                Slot { rs1, imm, rs3, offset: imm, ..s }
            } else if c == InstrCode::Lui {
                Slot { imm, rs3, ..s }
            } else if c.is_branch() {
                Slot { rs1, imm, rs3, ..s }
            } else if c == InstrCode::Jmpr {
                Slot { offset, rs3, ..s }
            } else if c == InstrCode::Call {
                Slot { addr: VAddr(offset as u32), ..s }
            } else if c == InstrCode::Ret {
                Slot { addr: VAddr(self.reg(Register::R14)), ..s }
            } else {
                s
            },
            None => s,
        }
    }

    /// The state after the decode stage took notice of a control-flow
    /// instruction in slot 1: slot 0 is emptied, and the fetch stage is
    /// redirected where the target is known, and stopped where it is not.
    pub open spec fn redirected(self, c: InstrCode) -> Machine {
        if c.is_branch() || c == InstrCode::Int0 {
            self.flushed(0).with_disable(true)
        } else if c == InstrCode::Jmpr {
            let lead: u32 = if self.pipelining_enabled {
                8
            } else {
                4
            };
            self.flushed(0).fetching_at(
                VAddr(
                    self.pipeline.pc.0.wrapping_sub(lead).wrapping_add(self.slot(1).offset as u32),
                ),
            )
        } else if c == InstrCode::Call || c == InstrCode::Ret {
            self.flushed(0).fetching_at(self.slot(1).addr)
        } else {
            self
        }
    }

    /// The state after the decode stage read the operands of `instr` into
    /// slot 1 and, for a control-flow instruction, redirected the fetch stage.
    pub open spec fn operands_read(self, instr: Instr) -> Machine {
        match instr.code() {
            Some(c) => self.with_slot(1, self.loaded_slot(instr)).redirected(c),
            None => self,
        }
    }

    /// The decode stage. A word that encodes no instruction is an error and
    /// leaves the state as it is. The instruction that the word encodes goes
    /// into the slot; if a slot above writes a register that it reads, the
    /// stage ends there and holds the pipeline. Else its operands are read;
    /// an instruction that names a register that the register file lacks is
    /// an error at that point.
    pub open spec fn decoded(self) -> (Machine, Result<(), SimErr>) {
        let s = self.slot(1);
        if !s.valid {
            (self, Ok(()))
        } else {
            match spec_decode(s.instr_backing) {
                Err(e) => (self, Err(e)),
                Ok(instr) => {
                    let m = self.with_slot(1, Slot { instr, ..s });
                    if m.hazard(1, instr.reads()) {
                        let h = m.held(1);
                        (
                            Machine {
                                pipeline: PipelineView {
                                    hazard_thrower: Some(1usize),
                                    ..h.pipeline
                                },
                                ..h
                            },
                            Ok(()),
                        )
                    } else {
                        let m = if m.pipeline.hazard_thrower == Some(1usize) {
                            m.released()
                        } else {
                            m
                        };
                        if instr.operands_exist() {
                            (m.operands_read(instr), Ok(()))
                        } else {
                            (m, Err(SimErr::InstrDecode))
                        }
                    }
                },
            }
        }
    }

    /// The state with the instruction of slot 1 marked as not decodable.
    pub open spec fn poisoned(self) -> Machine {
        self.with_slot(1, Slot { instr: Instr::Invalid, ..self.slot(1) })
    }

    /// The state after one more instruction was counted in total.
    pub open spec fn count_total(self) -> Machine {
        self.with_stats(Stats { total_instrs: bump(self.stats.total_instrs), ..self.stats })
    }

    pub open spec fn count_load(self) -> Machine {
        self.with_stats(Stats { load_instrs: bump(self.stats.load_instrs), ..self.stats })
    }

    pub open spec fn count_store(self) -> Machine {
        self.with_stats(Stats { store_instrs: bump(self.stats.store_instrs), ..self.stats })
    }

    pub open spec fn count_control(self) -> Machine {
        self.with_stats(Stats { control_instrs: bump(self.stats.control_instrs), ..self.stats })
    }

    pub open spec fn count_arithmetic(self) -> Machine {
        self.with_stats(
            Stats { arithmetic_instrs: bump(self.stats.arithmetic_instrs), ..self.stats },
        )
    }

    /// Where a branch in slot 2 continues: at its target where it is taken,
    /// behind it where it is not.
    pub open spec fn branch_target(self) -> VAddr {
        let s = self.slot(2);
        if taken(s.instr.code()->Some_0, s.rs3, s.rs1) {
            VAddr(s.pc.0.wrapping_add(s.imm as u32))
        } else {
            VAddr(s.pc.0.wrapping_add(4))
        }
    }

    /// The execute stage: the instruction in slot 2 is counted, and its
    /// result or its address goes into the slot. A branch empties slots 0
    /// and 1 and restarts the fetch stage at its target. A division by zero
    /// is an error. The stage is for a slot that holds a decoded instruction
    /// (see `can_execute`); what holds none is left as it is.
    pub open spec fn executed(self) -> (Machine, Result<(), SimErr>) {
        let s = self.slot(2);
        if !s.valid {
            (self, Ok(()))
        } else {
            let m = self.count_total();
            match s.instr.code() {
                None => (self, Ok(())),
                Some(c) => if c.is_load() {
                    (
                        m.count_load().with_slot(
                            2,
                            Slot { addr: VAddr(s.rs1.wrapping_add(s.offset as u32)), ..s },
                        ),
                        Ok(()),
                    )
                } else if c.is_store() {
                    (
                        m.count_store().with_slot(
                            2,
                            Slot { addr: VAddr(s.rs1.wrapping_add(s.offset as u32)), ..s },
                        ),
                        Ok(()),
                    )
                } else if c == InstrCode::Jmpr {
                    (
                        m.count_control().with_slot(
                            2,
                            Slot {
                                addr: VAddr(self.pipeline.pc.0.wrapping_add(s.offset as u32)),
                                ..s
                            },
                        ),
                        Ok(()),
                    )
                } else if c.is_branch() {
                    let target = self.branch_target();
                    (
                        m.count_control().flushed(0).flushed(1).with_slot(
                            2,
                            Slot { addr: target, ..s },
                        ).fetching_at(target).with_disable(false),
                        Ok(()),
                    )
                } else if c == InstrCode::Lui {
                    (
                        m.count_arithmetic().with_slot(2, Slot { rs3: (s.imm as u32) << 12, ..s }),
                        Ok(()),
                    )
                } else if c.is_alu() {
                    if c == InstrCode::Div && s.rs2 == 0 {
                        (m, Err(SimErr::DivByZero))
                    } else {
                        (
                            m.count_arithmetic().with_slot(
                                2,
                                Slot { rs3: alu(c, s.rs1, s.rs2), ..s },
                            ),
                            Ok(()),
                        )
                    }
                } else if c.is_alu_imm() {
                    (
                        m.count_arithmetic().with_slot(
                            2,
                            Slot { rs3: alu_imm(c, s.rs1, s.imm), ..s },
                        ),
                        Ok(()),
                    )
                } else if c == InstrCode::Call || c == InstrCode::Ret || c == InstrCode::Int0 {
                    (m.count_control(), Ok(()))
                } else {
                    (m, Ok(()))
                },
            }
        }
    }

    /// The memory stage of `ret`: the saved link register is read from the
    /// top of the stack into the slot.
    pub open spec fn ret_mem(self) -> (Machine, Result<(), SimErr>) {
        let s = self.slot(3);
        let sp = self.reg(Register::R15);
        if !aligned(sp, 4) {
            (self, Err(SimErr::Misaligned))
        } else {
            let (m, r) = self.load(sp, 4);
            match r {
                Err(e) => (m, Err(e)),
                Ok(bytes) => (
                    Machine { pc: s.addr, ..m.with_slot(3, Slot { rs3: le_value(bytes), ..s }) },
                    Ok(()),
                ),
            }
        }
    }

    /// The memory stage of `call`: the link register is pushed, and then
    /// holds the address behind the call.
    pub open spec fn call_mem(self, rnd: u32) -> (Machine, Result<(), SimErr>) {
        let s = self.slot(3);
        let sp = self.reg(Register::R15).wrapping_sub(4);
        let m = self.with_reg(Register::R15, sp);
        if !aligned(sp, 4) {
            (m, Err(SimErr::Misaligned))
        } else {
            let (m, r) = m.store(sp, le_seq(m.reg(Register::R14), 4), rnd);
            match r {
                Err(e) => (m, Err(e)),
                Ok(_) => (
                    Machine { pc: s.addr, ..m.with_reg(Register::R14, m.pc.0.wrapping_add(4)) },
                    Ok(()),
                ),
            }
        }
    }

    /// The memory stage of a load of `width` bytes.
    pub open spec fn load_mem(self, width: usize) -> (Machine, Result<(), SimErr>) {
        let s = self.slot(3);
        if !aligned(s.addr.0, 4) {
            (self, Err(SimErr::Misaligned))
        } else {
            let (m, r) = self.load(s.addr.0, width as int);
            match r {
                Err(e) => (m, Err(e)),
                Ok(bytes) => (m.with_slot(3, Slot { rs3: le_value(bytes), ..s }), Ok(())),
            }
        }
    }

    /// The memory stage of a store of `width` bytes.
    pub open spec fn store_mem(self, width: usize, rnd: u32) -> (Machine, Result<(), SimErr>) {
        let s = self.slot(3);
        if !aligned(s.addr.0, width as int) {
            (self, Err(SimErr::Misaligned))
        } else {
            let (m, r) = self.store(s.addr.0, le_seq(s.rs3, width as nat), rnd);
            match r {
                Err(e) => (m, Err(e)),
                Ok(_) => (m, Ok(())),
            }
        }
    }

    /// The memory stage of `int0`: execution continues at the address that
    /// the interrupt vector holds, and the slots below are emptied.
    pub open spec fn int0_mem(self) -> (Machine, Result<(), SimErr>) {
        let s = self.slot(3);
        let (m, r) = self.load(INT0_VECTOR, 4);
        match r {
            Err(e) => (m, Err(e)),
            Ok(bytes) => {
                let handler = VAddr(le_value(bytes));
                (
                    Machine {
                        pc: handler,
                        ..m.with_slot(3, Slot { addr: handler, ..s }).flushed(0).flushed(1).flushed(
                            2,
                        ).fetching_at(handler).with_disable(false)
                    },
                    Ok(()),
                )
            },
        }
    }

    /// The memory stage: the program counter moves to where the instruction
    /// in slot 3 continues, and the instruction's access to memory is made.
    pub open spec fn mem_stage(self, rnd: u32) -> (Machine, Result<(), SimErr>) {
        let s = self.slot(3);
        let next = Machine { pc: VAddr(s.pc.0.wrapping_add(4)), ..self };
        if !s.valid {
            (self, Ok(()))
        } else {
            match s.instr.code() {
                None => (next, Ok(())),
                Some(c) => if c == InstrCode::Ret {
                    self.ret_mem()
                } else if c.is_branch() {
                    (Machine { pc: s.addr, ..self }, Ok(()))
                } else if c == InstrCode::Jmpr {
                    (Machine { pc: VAddr(self.pc.0.wrapping_add(s.offset as u32)), ..self }, Ok(()))
                } else if c == InstrCode::Call {
                    self.call_mem(rnd)
                } else if c.is_load() {
                    next.load_mem(c.width())
                } else if c.is_store() {
                    next.store_mem(c.width(), rnd)
                } else if c == InstrCode::Int0 {
                    next.int0_mem()
                } else {
                    (next, Ok(()))
                },
            }
        }
    }

    /// The execute stage can run: its slot holds nothing, or an instruction
    /// that was decoded. A word that encodes no instruction must not reach it.
    pub open spec fn can_execute(self) -> bool {
        !self.slot(2).valid || self.slot(2).instr.code() is Some
    }

    /// The instruction puts its result into the register `rs3` at writeback.
    pub open spec fn writes_result(instr: Instr) -> bool {
        match instr.code() {
            Some(c) => c.is_alu() || c.is_alu_imm() || c.is_load() || c == InstrCode::Lui,
            None => false,
        }
    }

    /// The writeback stage can run: its slot does not hold a word that
    /// encodes no instruction, nor a result for a register that the register
    /// file lacks.
    pub open spec fn can_write_back(self) -> bool {
        let s = self.slot(4);
        !s.valid || (s.instr != Instr::Invalid && (Self::writes_result(s.instr)
            ==> s.instr.rs3().is_real()))
    }

    /// The writeback stage: the result of the instruction in slot 4 goes
    /// into its register. `ret` restores the link register and pops the
    /// stack. The stage is for a slot that `can_write_back`.
    pub open spec fn written_back(self) -> (Machine, Result<(), SimErr>) {
        let s = self.slot(4);
        if !s.valid {
            (self, Ok(()))
        } else {
            match s.instr.code() {
                None => (self, Ok(())),
                Some(c) => if Self::writes_result(s.instr) {
                    (self.with_reg(s.instr.rs3(), s.rs3), Ok(()))
                } else if c == InstrCode::Ret {
                    (
                        self.with_reg(Register::R14, s.rs3).with_reg(
                            Register::R15,
                            self.reg(Register::R15).wrapping_add(4),
                        ),
                        Ok(()),
                    )
                } else {
                    (self, Ok(()))
                },
            }
        }
    }

    /// The slots after the one below `c` moved up into `c`, unless it is
    /// held in place.
    pub open spec fn shifted(slots: Seq<Slot>, c: int) -> Seq<Slot> {
        if slots[c - 1].disable {
            slots
        } else {
            slots.update(c, slots[c - 1]).update(c - 1, Slot::empty())
        }
    }

    /// The state after the pipeline advanced: from the last stage down, each
    /// slot takes what the slot below it holds, unless that one is held in place.
    pub open spec fn advanced(self) -> Machine {
        let slots = Self::shifted(
            Self::shifted(Self::shifted(Self::shifted(self.pipeline.slots, 4), 3), 2),
            1,
        );
        Machine { pipeline: PipelineView { slots, ..self.pipeline }, ..self }
    }

    /// The state after the one instruction in flight moved to the next stage,
    /// with pipelining off.
    pub open spec fn advanced_single(self) -> Machine {
        let stage = self.pipeline.cur_stage;
        Machine {
            pipeline: PipelineView {
                slots: Seq::new(
                    self.pipeline.slots.len(),
                    |i: int|
                        if i == stage + 1 {
                            self.slot(stage as int)
                        } else {
                            Slot::empty()
                        },
                ),
                cur_stage: ((stage + 1) % 5) as usize,
                ..self.pipeline
            },
            ..self
        }
    }

    /// The execute stage of a cycle: a word that encodes no instruction, and
    /// has reached the stage, is a fault, and the stage does not run.
    pub open spec fn execute_step(self) -> (Machine, Result<(), SimErr>) {
        if self.can_execute() {
            self.executed()
        } else {
            (self, Err(SimErr::InstrDecode))
        }
    }

    /// The writeback stage of a cycle: what the stage cannot write back is a
    /// fault, and the stage does not run.
    pub open spec fn writeback_step(self) -> (Machine, Result<(), SimErr>) {
        if self.can_write_back() {
            self.written_back()
        } else {
            (self, Err(SimErr::InstrDecode))
        }
    }

    /// One cycle with pipelining on. A cycle goes to waiting for memory, or
    /// all five stages run, the pipeline advances, and the first error of a
    /// stage, if any, stops the simulator. A word that cannot be decoded is
    /// no error in the decode stage: it is marked and travels on, and is a
    /// fault when it reaches the execute stage.
    pub open spec fn cycle(self, rnd: u32) -> (Machine, Result<(), SimErr>) {
        let (m, wait) = self.stalled(true, true);
        match wait {
            Err(e) => (m.halted_on(Err(e)), Err(e)),
            Ok(true) => (m, Ok(())),
            Ok(false) => {
                let (m, r1) = if m.pipeline.disable {
                    (m, Ok(()))
                } else {
                    m.fetched()
                };
                let (m, r2) = m.decoded();
                let m = if r2 is Err {
                    m.poisoned()
                } else {
                    m
                };
                let (m, r3) = m.execute_step();
                let (m, r4) = m.mem_stage(rnd);
                let (m, r5) = m.writeback_step();
                let r = first_error(r1, first_error(r3, first_error(r4, r5)));
                (m.advanced().halted_on(r), r)
            },
        }
    }

    /// One cycle with pipelining off: the one stage that holds the
    /// instruction runs, and the instruction moves on. An error stops the
    /// simulator.
    pub open spec fn cycle_single(self, rnd: u32) -> (Machine, Result<(), SimErr>) {
        let stage = self.pipeline.cur_stage;
        if stage == 0 || stage == 3 {
            let (m, wait) = self.stalled(stage == 0, stage == 3);
            match wait {
                Err(e) => (m.halted_on(Err(e)), Err(e)),
                Ok(true) => (m, Ok(())),
                Ok(false) => {
                    let (m, r) = if stage == 0 {
                        m.fetched()
                    } else {
                        m.mem_stage(rnd)
                    };
                    (m.advanced_single().halted_on(r), r)
                },
            }
        } else if stage == 1 {
            let (m, r) = self.decoded();
            let m = if r is Err {
                m.poisoned()
            } else {
                m
            };
            (m.advanced_single().halted_on(r), r)
        } else if stage == 2 {
            let (m, r) = self.execute_step();
            (m.advanced_single().halted_on(r), r)
        } else {
            let (m, r) = self.writeback_step();
            (m.advanced_single().halted_on(r), r)
        }
    }

    /// One step of the simulator: nothing while it is stopped, else one
    /// cycle and one tick of the clock.
    pub open spec fn stepped(self, rnd: u32) -> (Machine, Result<(), SimErr>) {
        if !self.online {
            (self, Ok(()))
        } else {
            let (m, r) = if self.pipelining_enabled {
                self.cycle(rnd)
            } else {
                self.cycle_single(rnd)
            };
            (Machine { clock: (m.clock + 1) as u32, ..m }, r)
        }
    }
}

impl Machine {
    /// A run of at most `steps` steps, where `rnds` are the random numbers
    /// that the steps draw, one for each. The run ends before a step at a
    /// breakpoint, unless it would be the first step, and then yields
    /// `Ok(true)`; it ends with the error of a step that has one; and it
    /// ends with `Ok(false)` when the steps are made or the clock cannot
    /// count on.
    pub open spec fn ran(self, steps: nat, rnds: Seq<u32>, first: bool) -> (
        Machine,
        Result<bool, SimErr>,
    )
        decreases steps,
    {
        if steps == 0 {
            (self, Ok(false))
        } else if !first && self.breakpoints.contains_key(self.pc.0) {
            (self, Ok(true))
        } else if self.online && self.clock == u32::MAX {
            (self, Ok(false))
        } else {
            let (m, r) = self.stepped(rnds[0]);
            match r {
                Err(e) => (m, Err(e)),
                Ok(()) => m.ran((steps - 1) as nat, rnds.skip(1), false),
            }
        }
    }

    /// A load that succeeds yields as many bytes as were asked for, and a
    /// load keeps the shape of the state.
    pub proof fn lemma_load_len(self, v: u32, len: int)
        requires
            self.wf(),
            0 <= len <= 4,
            aligned(v, 4),
        ensures
            self.load(v, len).1 is Ok ==> self.load(v, len).1->Ok_0.len() == len,
            self.mmu.peek(v, len) is Ok ==> self.mmu.peek(v, len)->Ok_0.len() == len,
            self.load(v, len).0.wf(),
    {
        self.mmu.lemma_read(v, len);
    }
}

} // verus!
