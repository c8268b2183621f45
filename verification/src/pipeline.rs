use vstd::prelude::*;
use crate::cpu::Instr;
use crate::mmu::VAddr;

verus! {

/// Number of stages, and of slots, of the pipeline.
pub const NUM_SLOTS: usize = 5;

#[derive(Debug, Clone, Copy, PartialEq, Eq, Structural)]
pub struct Slot {
    /// Indicates if this slot is currently valid or not
    pub valid: bool,
    /// Instructions currently in the pipeline
    pub instr: Instr,
    /// Raw byte-backing for instructions currently in the pipeline
    pub instr_backing: u32,
    /// Decoded `rs1` value
    pub rs1: u32,
    /// Decoded `rs2` value
    pub rs2: u32,
    /// Decoded `rs3` value
    pub rs3: u32,
    /// Decoded `imm` value
    pub imm: i32,
    /// Decoded `offset` value
    pub offset: i32,
    /// Decoded `addr`. Can be used for both memory-addresses and control-addresses
    pub addr: VAddr,
    /// pipeline-pc that is written to the simulator-pc at every mem-access pipeline-stage
    pub pc: VAddr,
    /// Flag that indicates if this slot is currently disabled. A disabled slot stays in place
    /// while the pipeline advances
    pub disable: bool,
    /// Number of cycles that this slot still waits for memory, once the wait has begun
    pub mem_stall: Option<usize>,
}

impl Slot {
    /// A slot that holds nothing.
    pub open spec fn empty() -> Slot {
        Slot {
            valid: false,
            instr: Instr::Empty,
            instr_backing: 0,
            rs1: 0,
            rs2: 0,
            rs3: 0,
            imm: 0,
            offset: 0,
            addr: VAddr(0),
            pc: VAddr(0),
            disable: false,
            mem_stall: None,
        }
    }
}

impl Default for Slot {
    fn default() -> (slot: Self)
        ensures
            slot == Slot::empty(),
    {
        Slot {
            valid: false,
            instr: Instr::Empty,
            instr_backing: 0,
            rs1: 0,
            rs2: 0,
            rs3: 0,
            imm: 0,
            offset: 0,
            addr: VAddr(0),
            pc: VAddr(0),
            disable: false,
            mem_stall: None,
        }
    }
}

#[derive(Debug, Clone)]
pub struct Pipeline {
    /// PC internal to the pipeline
    /// Generally 4 ahead of actual pc since its updated in the `fetch` stage of the pipeline
    pub pc: VAddr,
    /// The slots of the five stages
    pub slots: [Slot; NUM_SLOTS],
    /// Flag that indicates if the pipeline is currently disabled. This means that no new
    /// instructions are added while we handle some issue that occured in the pipeline
    pub disable: bool,
    /// Keeps track of which slot in the pipeline threw the hazard
    pub hazard_thrower: Option<usize>,
    /// This field is only used when pipelining is off. Only one instruction can be in the
    /// pipeline at once, and this field keeps track of the stage that it is in
    pub cur_stage: usize,
}

/// The pipeline as mathematical values.
#[verifier::ext_equal]
pub struct PipelineView {
    pub pc: VAddr,
    pub slots: Seq<Slot>,
    pub disable: bool,
    pub hazard_thrower: Option<usize>,
    pub cur_stage: usize,
}

impl View for Pipeline {
    type V = PipelineView;

    open spec fn view(&self) -> PipelineView {
        PipelineView {
            pc: self.pc,
            slots: self.slots@,
            disable: self.disable,
            hazard_thrower: self.hazard_thrower,
            cur_stage: self.cur_stage,
        }
    }
}

impl PipelineView {
    /// An empty pipeline that fetches from address zero.
    pub open spec fn initial() -> PipelineView {
        PipelineView {
            pc: VAddr(0),
            slots: Seq::new(NUM_SLOTS as nat, |i: int| Slot::empty()),
            disable: false,
            hazard_thrower: None,
            cur_stage: 0,
        }
    }

    /// The pipeline with slot `i` replaced.
    pub open spec fn with_slot(self, i: int, slot: Slot) -> PipelineView {
        PipelineView { slots: self.slots.update(i, slot), ..self }
    }

    /// The pipeline with slot `i` emptied.
    pub open spec fn flushed(self, i: int) -> PipelineView {
        self.with_slot(i, Slot::empty())
    }
}

impl Default for Pipeline {
    fn default() -> (pipeline: Self)
        ensures
            pipeline@ == PipelineView::initial(),
    {
        let pipeline = Pipeline {
            pc: VAddr(0),
            slots: [Slot::default();NUM_SLOTS],
            disable: false,
            hazard_thrower: None,
            cur_stage: 0,
        };
        assert(pipeline@.slots =~= PipelineView::initial().slots);
        pipeline
    }
}

} // verus!
