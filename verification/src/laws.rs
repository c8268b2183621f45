//! What holds of a step of the machine whatever program it runs.

use vstd::prelude::*;
use crate::bump;
use crate::cpu::{InstrCode, Register, NUM_REGS};
use crate::le_seq;
use crate::machine::{store_chunks, taken, Machine, INT0_VECTOR};
use crate::mmu::VAddr;
use crate::pipeline::Slot;
use crate::simulator::SimErr;

verus! {

/// Two slots hold the same work: they differ at most in being held in place.
pub open spec fn same_work(a: Slot, b: Slot) -> bool {
    a == (Slot { disable: a.disable, ..b })
}

impl Machine {
    /// The stages of this step run, and the execute stage finds a decoded
    /// instruction in its slot.
    pub open spec fn reaches_execute(self) -> bool {
        &&& self.online
        &&& self.slot(2).valid
        &&& self.slot(2).instr.code() is Some
        &&& if self.pipelining_enabled {
            self.stalled(true, true).1 == Ok::<bool, SimErr>(false)
        } else {
            self.pipeline.cur_stage == 2
        }
    }

    /// The execute stage of this step resolves a branch that is taken.
    pub open spec fn takes_branch(self) -> bool {
        &&& self.reaches_execute()
        &&& self.slot(2).instr.code() is Some
        &&& self.slot(2).instr.code()->Some_0.is_branch()
        &&& taken(self.slot(2).instr.code()->Some_0, self.slot(2).rs3, self.slot(2).rs1)
    }

    /// The memory stage of this step resolves an `int0`.
    pub open spec fn takes_interrupt(self) -> bool {
        self.slot(3).valid && self.slot(3).instr.code() == Some(InstrCode::Int0)
    }

    /// The count of instructions after this step, if the total is counted right.
    pub open spec fn counted_total(self) -> u64 {
        if self.reaches_execute() {
            bump(self.stats.total_instrs)
        } else {
            self.stats.total_instrs
        }
    }

    /// The execute stage counts an instruction if and only if it finds one in
    /// its slot, and leaves the slots above its own as they are. A division
    /// by zero is its only error.
    pub proof fn lemma_executed_counts(self)
        requires
            self.wf(),
            self.can_execute(),
        ensures
            self.executed().1 is Err ==> self.executed().1 == Err::<(), SimErr>(SimErr::DivByZero),
            self.executed().0.stats.total_instrs == if self.slot(2).valid {
                bump(self.stats.total_instrs)
            } else {
                self.stats.total_instrs
            },
            self.executed().0.slot(3) == self.slot(3),
            self.executed().0.slot(4) == self.slot(4),
    {
    }

    /// A branch sends the fetch stage to where it continues; a branch that is
    /// taken continues at its target, the address of the branch plus its immediate.
    pub proof fn lemma_executed_branch(self)
        requires
            self.wf(),
            self.slot(2).valid,
            self.slot(2).instr.code() is Some,
            self.slot(2).instr.code()->Some_0.is_branch(),
        ensures
            self.executed().0.pipeline.pc == self.branch_target(),
            self.executed().1 is Ok,
            taken(self.slot(2).instr.code()->Some_0, self.slot(2).rs3, self.slot(2).rs1)
                ==> self.branch_target() == VAddr(
                self.slot(2).pc.0.wrapping_add(self.slot(2).imm as u32),
            ),
    {
    }
}

impl Machine {
    /// `other` has the register file of this state in size, and its `R0`.
    pub open spec fn zero_kept(self, other: Machine) -> bool {
        other.regs.len() == self.regs.len() && other.regs[0] == self.regs[0]
    }

    proof fn lemma_with_reg_zero(self, r: Register, val: u32)
        requires
            self.regs.len() == NUM_REGS,
        ensures
            self.zero_kept(self.with_reg(r, val)),
    {
    }

    proof fn lemma_load_zero(self, v: u32, len: int)
        ensures
            self.load(v, len).0.regs == self.regs,
            self.load(v, len).0.pipeline == self.pipeline,
            self.load(v, len).0.pc == self.pc,
    {
    }

    proof fn lemma_store_zero(self, v: u32, data: Seq<u8>, rnd: u32)
        requires
            self.regs.len() == NUM_REGS,
        ensures
            self.zero_kept(self.store(v, data, rnd).0),
    {
        let (mmu, r, done) = store_chunks(self.mmu, v, data);
        let m = Machine { mmu, ..self };
        m.lemma_with_reg_zero(Register::R1, m.clock);
        m.lemma_with_reg_zero(Register::R1, rnd);
    }

    proof fn lemma_early_stages_zero(self)
        ensures
            forall|a: bool, b: bool| (#[trigger] self.stalled(a, b)).0.regs == self.regs,
            self.fetched().0.regs == self.regs,
            self.decoded().0.regs == self.regs,
            self.decoded().0.poisoned().regs == self.regs,
            self.execute_step().0.regs == self.regs,
            self.advanced().regs == self.regs,
            self.advanced_single().regs == self.regs,
    {
        self.lemma_load_zero(self.pipeline.pc.0, 4);
    }

    proof fn lemma_ret_mem_zero(self)
        ensures
            self.ret_mem().0.regs == self.regs,
    {
        self.lemma_load_zero(self.reg(Register::R15), 4);
    }

    proof fn lemma_call_mem_zero(self, rnd: u32)
        requires
            self.regs.len() == NUM_REGS,
        ensures
            self.zero_kept(self.call_mem(rnd).0),
    {
        let sp = self.reg(Register::R15).wrapping_sub(4);
        let pushed = self.with_reg(Register::R15, sp);
        self.lemma_with_reg_zero(Register::R15, sp);
        pushed.lemma_store_zero(sp, le_seq(pushed.reg(Register::R14), 4), rnd);
        let called = pushed.store(sp, le_seq(pushed.reg(Register::R14), 4), rnd).0;
        called.lemma_with_reg_zero(Register::R14, called.pc.0.wrapping_add(4));
    }

    proof fn lemma_load_mem_zero(self, width: usize)
        ensures
            self.load_mem(width).0.regs == self.regs,
    {
        self.lemma_load_zero(self.slot(3).addr.0, width as int);
    }

    proof fn lemma_store_mem_zero(self, width: usize, rnd: u32)
        requires
            self.regs.len() == NUM_REGS,
        ensures
            self.zero_kept(self.store_mem(width, rnd).0),
    {
        self.lemma_store_zero(self.slot(3).addr.0, le_seq(self.slot(3).rs3, width as nat), rnd);
    }

    proof fn lemma_int0_mem_zero(self)
        ensures
            self.int0_mem().0.regs == self.regs,
    {
        self.lemma_load_zero(INT0_VECTOR, 4);
    }

    proof fn lemma_mem_stage_zero(self, rnd: u32)
        requires
            self.regs.len() == NUM_REGS,
        ensures
            self.zero_kept(self.mem_stage(rnd).0),
    {
        let s = self.slot(3);
        let next = Machine { pc: VAddr(s.pc.0.wrapping_add(4)), ..self };
        if s.valid && s.instr.code() is Some {
            let c = s.instr.code()->Some_0;
            if c == InstrCode::Ret {
                self.lemma_ret_mem_zero();
            } else if c == InstrCode::Call {
                self.lemma_call_mem_zero(rnd);
            } else if c.is_load() {
                next.lemma_load_mem_zero(c.width());
            } else if c.is_store() {
                next.lemma_store_mem_zero(c.width(), rnd);
            } else if c == InstrCode::Int0 {
                next.lemma_int0_mem_zero();
            }
        }
    }

    proof fn lemma_writeback_zero(self)
        requires
            self.regs.len() == NUM_REGS,
        ensures
            self.zero_kept(self.writeback_step().0),
    {
        let s = self.slot(4);
        self.lemma_with_reg_zero(s.instr.rs3(), s.rs3);
        self.lemma_with_reg_zero(Register::R14, s.rs3);
        self.with_reg(Register::R14, s.rs3).lemma_with_reg_zero(
            Register::R15,
            self.reg(Register::R15).wrapping_add(4),
        );
    }

    /// Whatever the state and whatever the step does, `R0` holds after the
    /// step what it held before: no stage writes it. So for any sequence of
    /// steps `R0` reads zero.
    pub proof fn lemma_step_keeps_zero(self, rnd: u32)
        requires
            self.regs.len() == NUM_REGS,
        ensures
            self.zero_kept(self.stepped(rnd).0),
            self.regs[0] == 0 ==> self.stepped(rnd).0.reg(Register::R0) == 0,
    {
        if self.online {
            if self.pipelining_enabled {
                self.lemma_cycle_keeps_zero(rnd);
            } else {
                self.lemma_cycle_single_keeps_zero(rnd);
            }
        }
    }

    /// A run of any number of steps leaves `R0` as it was.
    pub proof fn lemma_run_keeps_zero(self, steps: nat, rnds: Seq<u32>, first: bool)
        requires
            self.regs.len() == NUM_REGS,
        ensures
            self.zero_kept(self.ran(steps, rnds, first).0),
        decreases steps,
    {
        if steps > 0 {
            self.lemma_step_keeps_zero(rnds[0]);
            let (m, r) = self.stepped(rnds[0]);
            m.lemma_run_keeps_zero((steps - 1) as nat, rnds.skip(1), false);
        }
    }

    proof fn lemma_cycle_keeps_zero(self, rnd: u32)
        requires
            self.regs.len() == NUM_REGS,
        ensures
            self.zero_kept(self.cycle(rnd).0),
    {
        self.lemma_early_stages_zero();
        let (m0, wait) = self.stalled(true, true);
        if wait == Ok::<bool, SimErr>(false) {
            m0.lemma_early_stages_zero();
            let (m1, r1) = if m0.pipeline.disable {
                (m0, Ok(()))
            } else {
                m0.fetched()
            };
            m1.lemma_early_stages_zero();
            let (m2, r2) = m1.decoded();
            let m2 = if r2 is Err {
                m2.poisoned()
            } else {
                m2
            };
            m2.lemma_early_stages_zero();
            let (m3, r3) = m2.execute_step();
            m3.lemma_mem_stage_zero(rnd);
            let (m4, r4) = m3.mem_stage(rnd);
            m4.lemma_writeback_zero();
            let (m5, r5) = m4.writeback_step();
            m5.lemma_early_stages_zero();
        }
    }

    proof fn lemma_cycle_single_keeps_zero(self, rnd: u32)
        requires
            self.regs.len() == NUM_REGS,
        ensures
            self.zero_kept(self.cycle_single(rnd).0),
    {
        let stage = self.pipeline.cur_stage;
        self.lemma_early_stages_zero();
        if stage == 0 || stage == 3 {
            let (m0, wait) = self.stalled(stage == 0, stage == 3);
            if wait == Ok::<bool, SimErr>(false) {
                if stage == 0 {
                    m0.lemma_early_stages_zero();
                    m0.fetched().0.lemma_early_stages_zero();
                } else {
                    m0.lemma_mem_stage_zero(rnd);
                    m0.mem_stage(rnd).0.lemma_early_stages_zero();
                }
            }
        } else if stage == 1 {
            let (m, r) = self.decoded();
            if r is Err {
                m.poisoned().lemma_early_stages_zero();
            } else {
                m.lemma_early_stages_zero();
            }
        } else if stage == 2 {
            self.execute_step().0.lemma_early_stages_zero();
        } else {
            self.lemma_writeback_zero();
            self.writeback_step().0.lemma_early_stages_zero();
        }
    }
}

} // verus!
