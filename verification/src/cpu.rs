use vstd::prelude::*;
use vstd::std_specs::convert::FromSpecImpl;
use crate::simulator::SimErr;

verus! {

/// Number of general purpose registers.
pub const NUM_REGS: usize = 16;

/// The five stages an instruction passes through.
#[derive(Default, Debug, Clone, Copy)]
pub enum PipelineStage {
    #[default]
    Fetch,
    Decode,
    Execute,
    Memory,
    Writeback,
}

/// Registers supported by this architecture. `R0` is wired to zero, `R14` is
/// the link register and `R15` the stack pointer. `NoReg` stands for a
/// register field that names no register of the file.
#[derive(Clone, Copy, Default, Debug, PartialEq, Eq, Hash, Ord, PartialOrd, Structural)]
pub enum Register {
    R0,
    R1,
    R2,
    R3,
    R4,
    R5,
    R6,
    R7,
    R8,
    R9,
    R10,
    R11,
    R12,
    R13,
    R14,
    R15,
    #[default]
    NoReg,
}

impl Register {
    /// Position of the register in the register file; 16 for `NoReg`.
    pub open spec fn number(self) -> int {
        match self {
            Register::R0 => 0,
            Register::R1 => 1,
            Register::R2 => 2,
            Register::R3 => 3,
            Register::R4 => 4,
            Register::R5 => 5,
            Register::R6 => 6,
            Register::R7 => 7,
            Register::R8 => 8,
            Register::R9 => 9,
            Register::R10 => 10,
            Register::R11 => 11,
            Register::R12 => 12,
            Register::R13 => 13,
            Register::R14 => 14,
            Register::R15 => 15,
            Register::NoReg => 16,
        }
    }

    /// The register with the given number; `NoReg` for numbers outside the file.
    pub open spec fn of_number(n: int) -> Register {
        if n == 0 {
            Register::R0
        } else if n == 1 {
            Register::R1
        } else if n == 2 {
            Register::R2
        } else if n == 3 {
            Register::R3
        } else if n == 4 {
            Register::R4
        } else if n == 5 {
            Register::R5
        } else if n == 6 {
            Register::R6
        } else if n == 7 {
            Register::R7
        } else if n == 8 {
            Register::R8
        } else if n == 9 {
            Register::R9
        } else if n == 10 {
            Register::R10
        } else if n == 11 {
            Register::R11
        } else if n == 12 {
            Register::R12
        } else if n == 13 {
            Register::R13
        } else if n == 14 {
            Register::R14
        } else if n == 15 {
            Register::R15
        } else {
            Register::NoReg
        }
    }

    /// True for the sixteen registers of the file.
    pub open spec fn is_real(self) -> bool {
        self != Register::NoReg
    }

    /// Position of the register in the register file.
    pub fn index(self) -> (i: usize)
        ensures
            i == self.number(),
            self.is_real() <==> i < NUM_REGS,
    {
        match self {
            Register::R0 => 0,
            Register::R1 => 1,
            Register::R2 => 2,
            Register::R3 => 3,
            Register::R4 => 4,
            Register::R5 => 5,
            Register::R6 => 6,
            Register::R7 => 7,
            Register::R8 => 8,
            Register::R9 => 9,
            Register::R10 => 10,
            Register::R11 => 11,
            Register::R12 => 12,
            Register::R13 => 13,
            Register::R14 => 14,
            Register::R15 => 15,
            Register::NoReg => 16,
        }
    }

    /// Whether this names one of the sixteen registers of the file.
    pub fn in_file(self) -> (b: bool)
        ensures
            b == self.is_real(),
    {
        self != Register::NoReg
    }

    pub proof fn lemma_number_roundtrip(self)
        ensures
            Register::of_number(self.number()) == self,
            0 <= self.number() <= 16,
    {
    }
}

/// Transform a register number into a `Register`.
impl From<u32> for Register {
    fn from(val: u32) -> (r: Register) {
        match val {
            0 => Register::R0,
            1 => Register::R1,
            2 => Register::R2,
            3 => Register::R3,
            4 => Register::R4,
            5 => Register::R5,
            6 => Register::R6,
            7 => Register::R7,
            8 => Register::R8,
            9 => Register::R9,
            10 => Register::R10,
            11 => Register::R11,
            12 => Register::R12,
            13 => Register::R13,
            14 => Register::R14,
            15 => Register::R15,
            _ => Register::NoReg,
        }
    }
}

impl FromSpecImpl<u32> for Register {
    open spec fn obeys_from_spec() -> bool {
        true
    }

    open spec fn from_spec(val: u32) -> Register {
        Register::of_number(val as int)
    }
}

/// Operation codes, as they stand in bits 31..26 of an instruction word.
#[derive(Debug, Clone, Copy, Eq, PartialEq, Structural)]
pub enum InstrCode {
    Add,
    Sub,
    Xor,
    Or,
    And,
    Shr,
    Shl,
    Addi,
    Subi,
    Xori,
    Ori,
    Andi,
    Lui,
    Ldb,
    Ldh,
    Ld,
    Stb,
    Sth,
    St,
    Bne,
    Beq,
    Blt,
    Bgt,
    Jmpr,
    Call,
    Ret,
    Nop,
    Mul,
    Div,
    Int0,
}

impl InstrCode {
    /// The number that encodes this operation.
    pub open spec fn number(self) -> u32 {
        match self {
            InstrCode::Add => 2,
            InstrCode::Sub => 3,
            InstrCode::Xor => 4,
            InstrCode::Or => 5,
            InstrCode::And => 6,
            InstrCode::Shr => 7,
            InstrCode::Shl => 8,
            InstrCode::Addi => 9,
            InstrCode::Subi => 10,
            InstrCode::Xori => 11,
            InstrCode::Ori => 12,
            InstrCode::Andi => 13,
            InstrCode::Lui => 26,
            InstrCode::Ldb => 14,
            InstrCode::Ldh => 15,
            InstrCode::Ld => 16,
            InstrCode::Stb => 17,
            InstrCode::Sth => 18,
            InstrCode::St => 19,
            InstrCode::Bne => 20,
            InstrCode::Beq => 21,
            InstrCode::Blt => 22,
            InstrCode::Bgt => 23,
            InstrCode::Jmpr => 25,
            InstrCode::Call => 27,
            InstrCode::Ret => 28,
            InstrCode::Nop => 29,
            InstrCode::Mul => 30,
            InstrCode::Div => 31,
            InstrCode::Int0 => 40,
        }
    }

    /// The operation that a number encodes, if any.
    pub open spec fn of_number(op: u32) -> Option<InstrCode> {
        if op == 2 {
            Some(InstrCode::Add)
        } else if op == 3 {
            Some(InstrCode::Sub)
        } else if op == 4 {
            Some(InstrCode::Xor)
        } else if op == 5 {
            Some(InstrCode::Or)
        } else if op == 6 {
            Some(InstrCode::And)
        } else if op == 7 {
            Some(InstrCode::Shr)
        } else if op == 8 {
            Some(InstrCode::Shl)
        } else if op == 9 {
            Some(InstrCode::Addi)
        } else if op == 10 {
            Some(InstrCode::Subi)
        } else if op == 11 {
            Some(InstrCode::Xori)
        } else if op == 12 {
            Some(InstrCode::Ori)
        } else if op == 13 {
            Some(InstrCode::Andi)
        } else if op == 26 {
            Some(InstrCode::Lui)
        } else if op == 14 {
            Some(InstrCode::Ldb)
        } else if op == 15 {
            Some(InstrCode::Ldh)
        } else if op == 16 {
            Some(InstrCode::Ld)
        } else if op == 17 {
            Some(InstrCode::Stb)
        } else if op == 18 {
            Some(InstrCode::Sth)
        } else if op == 19 {
            Some(InstrCode::St)
        } else if op == 20 {
            Some(InstrCode::Bne)
        } else if op == 21 {
            Some(InstrCode::Beq)
        } else if op == 22 {
            Some(InstrCode::Blt)
        } else if op == 23 {
            Some(InstrCode::Bgt)
        } else if op == 25 {
            Some(InstrCode::Jmpr)
        } else if op == 27 {
            Some(InstrCode::Call)
        } else if op == 28 {
            Some(InstrCode::Ret)
        } else if op == 29 {
            Some(InstrCode::Nop)
        } else if op == 30 {
            Some(InstrCode::Mul)
        } else if op == 31 {
            Some(InstrCode::Div)
        } else if op == 40 {
            Some(InstrCode::Int0)
        } else {
            None
        }
    }

    /// Three-register arithmetic: `rs3 = rs1 op rs2`.
    pub open spec fn spec_is_alu(self) -> bool {
        matches!(self, InstrCode::Add | InstrCode::Sub | InstrCode::Xor | InstrCode::Or | InstrCode::And | InstrCode::Shr | InstrCode::Shl | InstrCode::Mul | InstrCode::Div)
    }

    /// Arithmetic with an immediate: `rs3 = rs1 op imm`.
    pub open spec fn spec_is_alu_imm(self) -> bool {
        matches!(self, InstrCode::Addi | InstrCode::Subi | InstrCode::Xori | InstrCode::Ori | InstrCode::Andi)
    }

    pub open spec fn spec_is_load(self) -> bool {
        matches!(self, InstrCode::Ldb | InstrCode::Ldh | InstrCode::Ld)
    }

    pub open spec fn spec_is_store(self) -> bool {
        matches!(self, InstrCode::Stb | InstrCode::Sth | InstrCode::St)
    }

    pub open spec fn spec_is_branch(self) -> bool {
        matches!(self, InstrCode::Bne | InstrCode::Beq | InstrCode::Blt | InstrCode::Bgt)
    }

    /// Operations that carry `rs3`, `rs1` and a 16-bit immediate.
    pub open spec fn spec_has_imm_format(self) -> bool {
        self.is_alu_imm() || self.is_load() || self.is_store() || self.is_branch()
    }

    /// Three-register arithmetic: `rs3 = rs1 op rs2`.
    #[verifier::when_used_as_spec(spec_is_alu)]
    pub fn is_alu(self) -> (b: bool)
        ensures
            b == self.spec_is_alu(),
    {
        matches!(self, InstrCode::Add | InstrCode::Sub | InstrCode::Xor | InstrCode::Or | InstrCode::And | InstrCode::Shr | InstrCode::Shl | InstrCode::Mul | InstrCode::Div)
    }

    /// Arithmetic with an immediate: `rs3 = rs1 op imm`.
    #[verifier::when_used_as_spec(spec_is_alu_imm)]
    pub fn is_alu_imm(self) -> (b: bool)
        ensures
            b == self.spec_is_alu_imm(),
    {
        matches!(self, InstrCode::Addi | InstrCode::Subi | InstrCode::Xori | InstrCode::Ori | InstrCode::Andi)
    }

    /// Loads from memory into `rs3`.
    #[verifier::when_used_as_spec(spec_is_load)]
    pub fn is_load(self) -> (b: bool)
        ensures
            b == self.spec_is_load(),
    {
        matches!(self, InstrCode::Ldb | InstrCode::Ldh | InstrCode::Ld)
    }

    /// Stores of `rs3` to memory.
    #[verifier::when_used_as_spec(spec_is_store)]
    pub fn is_store(self) -> (b: bool)
        ensures
            b == self.spec_is_store(),
    {
        matches!(self, InstrCode::Stb | InstrCode::Sth | InstrCode::St)
    }

    /// Conditional branches that compare `rs3` with `rs1`.
    #[verifier::when_used_as_spec(spec_is_branch)]
    pub fn is_branch(self) -> (b: bool)
        ensures
            b == self.spec_is_branch(),
    {
        matches!(self, InstrCode::Bne | InstrCode::Beq | InstrCode::Blt | InstrCode::Bgt)
    }

    /// Operations that carry `rs3`, `rs1` and a 16-bit immediate.
    #[verifier::when_used_as_spec(spec_has_imm_format)]
    pub fn has_imm_format(self) -> (b: bool)
        ensures
            b == self.spec_has_imm_format(),
    {
        self.is_alu_imm() || self.is_load() || self.is_store() || self.is_branch()
    }

    /// The number of bytes that a load or a store moves; 0 for other operations.
    pub open spec fn spec_width(self) -> usize {
        match self {
            InstrCode::Ldb | InstrCode::Stb => 1,
            InstrCode::Ldh | InstrCode::Sth => 2,
            InstrCode::Ld | InstrCode::St => 4,
            _ => 0,
        }
    }

    /// The number of bytes that a load or a store moves; 0 for other operations.
    #[verifier::when_used_as_spec(spec_width)]
    pub fn width(self) -> (n: usize)
        ensures
            n == self.spec_width(),
    {
        match self {
            InstrCode::Ldb | InstrCode::Stb => 1,
            InstrCode::Ldh | InstrCode::Sth => 2,
            InstrCode::Ld | InstrCode::St => 4,
            _ => 0,
        }
    }

    /// The number that encodes this operation.
    pub fn opcode(self) -> (op: u32)
        ensures
            op == self.number(),
            op < 64,
    {
        match self {
            InstrCode::Add => 2,
            InstrCode::Sub => 3,
            InstrCode::Xor => 4,
            InstrCode::Or => 5,
            InstrCode::And => 6,
            InstrCode::Shr => 7,
            InstrCode::Shl => 8,
            InstrCode::Addi => 9,
            InstrCode::Subi => 10,
            InstrCode::Xori => 11,
            InstrCode::Ori => 12,
            InstrCode::Andi => 13,
            InstrCode::Lui => 26,
            InstrCode::Ldb => 14,
            InstrCode::Ldh => 15,
            InstrCode::Ld => 16,
            InstrCode::Stb => 17,
            InstrCode::Sth => 18,
            InstrCode::St => 19,
            InstrCode::Bne => 20,
            InstrCode::Beq => 21,
            InstrCode::Blt => 22,
            InstrCode::Bgt => 23,
            InstrCode::Jmpr => 25,
            InstrCode::Call => 27,
            InstrCode::Ret => 28,
            InstrCode::Nop => 29,
            InstrCode::Mul => 30,
            InstrCode::Div => 31,
            InstrCode::Int0 => 40,
        }
    }

    /// The operation that `op` encodes; `None` for a number outside the table.
    pub fn from_opcode(op: u32) -> (r: Option<InstrCode>)
        ensures
            r == InstrCode::of_number(op),
    {
        match op {
            2 => Some(InstrCode::Add),
            3 => Some(InstrCode::Sub),
            4 => Some(InstrCode::Xor),
            5 => Some(InstrCode::Or),
            6 => Some(InstrCode::And),
            7 => Some(InstrCode::Shr),
            8 => Some(InstrCode::Shl),
            9 => Some(InstrCode::Addi),
            10 => Some(InstrCode::Subi),
            11 => Some(InstrCode::Xori),
            12 => Some(InstrCode::Ori),
            13 => Some(InstrCode::Andi),
            26 => Some(InstrCode::Lui),
            14 => Some(InstrCode::Ldb),
            15 => Some(InstrCode::Ldh),
            16 => Some(InstrCode::Ld),
            17 => Some(InstrCode::Stb),
            18 => Some(InstrCode::Sth),
            19 => Some(InstrCode::St),
            20 => Some(InstrCode::Bne),
            21 => Some(InstrCode::Beq),
            22 => Some(InstrCode::Blt),
            23 => Some(InstrCode::Bgt),
            25 => Some(InstrCode::Jmpr),
            27 => Some(InstrCode::Call),
            28 => Some(InstrCode::Ret),
            29 => Some(InstrCode::Nop),
            30 => Some(InstrCode::Mul),
            31 => Some(InstrCode::Div),
            40 => Some(InstrCode::Int0),
            _ => None,
        }
    }

    /// Numbers and operations correspond one to one.
    pub proof fn lemma_number_roundtrip(self)
        ensures
            InstrCode::of_number(self.number()) == Some(self),
            self.number() < 64,
    {
    }

    /// A number that encodes an operation is that operation's number.
    pub proof fn lemma_of_number_sound(op: u32)
        ensures
            match InstrCode::of_number(op) {
                Some(c) => c.number() == op,
                None => forall|c: InstrCode| c.number() != op,
            },
    {
    }
}

/// Instructions supported by this architecture.
#[derive(Default, Debug, Clone, Copy, Eq, PartialEq, Structural)]
pub enum Instr {
    /// An empty pipeline slot.
    #[default]
    Empty,

    // R-Type
    Add { rs3: Register, rs1: Register, rs2: Register },
    Sub { rs3: Register, rs1: Register, rs2: Register },
    Xor { rs3: Register, rs1: Register, rs2: Register },
    Or { rs3: Register, rs1: Register, rs2: Register },
    And { rs3: Register, rs1: Register, rs2: Register },
    Shr { rs3: Register, rs1: Register, rs2: Register },
    Shl { rs3: Register, rs1: Register, rs2: Register },
    Mul { rs3: Register, rs1: Register, rs2: Register },
    Div { rs3: Register, rs1: Register, rs2: Register },

    // G-Type
    Addi { rs3: Register, rs1: Register, imm: i32 },
    Subi { rs3: Register, rs1: Register, imm: i32 },
    Xori { rs3: Register, rs1: Register, imm: i32 },
    Ori { rs3: Register, rs1: Register, imm: i32 },
    Andi { rs3: Register, rs1: Register, imm: i32 },
    Lui { rs3: Register, imm: i32 },

    Ldb { rs3: Register, rs1: Register, imm: i32 },
    Ldh { rs3: Register, rs1: Register, imm: i32 },
    Ld { rs3: Register, rs1: Register, imm: i32 },
    Stb { rs3: Register, rs1: Register, imm: i32 },
    Sth { rs3: Register, rs1: Register, imm: i32 },
    St { rs3: Register, rs1: Register, imm: i32 },

    Bne { rs3: Register, rs1: Register, imm: i32 },
    Beq { rs3: Register, rs1: Register, imm: i32 },
    Blt { rs3: Register, rs1: Register, imm: i32 },
    Bgt { rs3: Register, rs1: Register, imm: i32 },

    // J-Type
    Jmpr { rs3: Register, offset: i32 },
    Call { rs3: Register, offset: i32 },

    Ret {},
    Nop,

    // Interrupts
    Int0 {},

    /// Decoding failed. The pipeline faults if this instruction is not flushed
    /// before it reaches the execute stage.
    Invalid,
}

impl Instr {
    /// The operation of this instruction; `None` for `Empty` and `Invalid`.
    pub open spec fn spec_code(self) -> Option<InstrCode> {
        match self {
            Instr::Empty => None,
            Instr::Invalid => None,
            Instr::Add { .. } => Some(InstrCode::Add),
            Instr::Sub { .. } => Some(InstrCode::Sub),
            Instr::Xor { .. } => Some(InstrCode::Xor),
            Instr::Or { .. } => Some(InstrCode::Or),
            Instr::And { .. } => Some(InstrCode::And),
            Instr::Shr { .. } => Some(InstrCode::Shr),
            Instr::Shl { .. } => Some(InstrCode::Shl),
            Instr::Addi { .. } => Some(InstrCode::Addi),
            Instr::Subi { .. } => Some(InstrCode::Subi),
            Instr::Xori { .. } => Some(InstrCode::Xori),
            Instr::Ori { .. } => Some(InstrCode::Ori),
            Instr::Andi { .. } => Some(InstrCode::Andi),
            Instr::Lui { .. } => Some(InstrCode::Lui),
            Instr::Ldb { .. } => Some(InstrCode::Ldb),
            Instr::Ldh { .. } => Some(InstrCode::Ldh),
            Instr::Ld { .. } => Some(InstrCode::Ld),
            Instr::Stb { .. } => Some(InstrCode::Stb),
            Instr::Sth { .. } => Some(InstrCode::Sth),
            Instr::St { .. } => Some(InstrCode::St),
            Instr::Bne { .. } => Some(InstrCode::Bne),
            Instr::Beq { .. } => Some(InstrCode::Beq),
            Instr::Blt { .. } => Some(InstrCode::Blt),
            Instr::Bgt { .. } => Some(InstrCode::Bgt),
            Instr::Jmpr { .. } => Some(InstrCode::Jmpr),
            Instr::Call { .. } => Some(InstrCode::Call),
            Instr::Ret { .. } => Some(InstrCode::Ret),
            Instr::Nop => Some(InstrCode::Nop),
            Instr::Mul { .. } => Some(InstrCode::Mul),
            Instr::Div { .. } => Some(InstrCode::Div),
            Instr::Int0 { .. } => Some(InstrCode::Int0),
        }
    }

    /// The `rs3` field; `NoReg` where the instruction has none.
    pub open spec fn spec_rs3(self) -> Register {
        match self {
            Instr::Add { rs3, .. } |
            Instr::Sub { rs3, .. } |
            Instr::Xor { rs3, .. } |
            Instr::Or { rs3, .. } |
            Instr::And { rs3, .. } |
            Instr::Shr { rs3, .. } |
            Instr::Shl { rs3, .. } |
            Instr::Mul { rs3, .. } |
            Instr::Div { rs3, .. } |
            Instr::Addi { rs3, .. } |
            Instr::Subi { rs3, .. } |
            Instr::Xori { rs3, .. } |
            Instr::Ori { rs3, .. } |
            Instr::Andi { rs3, .. } |
            Instr::Ldb { rs3, .. } |
            Instr::Ldh { rs3, .. } |
            Instr::Ld { rs3, .. } |
            Instr::Stb { rs3, .. } |
            Instr::Sth { rs3, .. } |
            Instr::St { rs3, .. } |
            Instr::Bne { rs3, .. } |
            Instr::Beq { rs3, .. } |
            Instr::Blt { rs3, .. } |
            Instr::Bgt { rs3, .. } |
            Instr::Lui { rs3, .. } |
            Instr::Jmpr { rs3, .. } |
            Instr::Call { rs3, .. } => rs3,
            _ => Register::NoReg,
        }
    }

    /// The `rs1` field; `NoReg` where the instruction has none.
    pub open spec fn spec_rs1(self) -> Register {
        match self {
            Instr::Add { rs1, .. } |
            Instr::Sub { rs1, .. } |
            Instr::Xor { rs1, .. } |
            Instr::Or { rs1, .. } |
            Instr::And { rs1, .. } |
            Instr::Shr { rs1, .. } |
            Instr::Shl { rs1, .. } |
            Instr::Mul { rs1, .. } |
            Instr::Div { rs1, .. } |
            Instr::Addi { rs1, .. } |
            Instr::Subi { rs1, .. } |
            Instr::Xori { rs1, .. } |
            Instr::Ori { rs1, .. } |
            Instr::Andi { rs1, .. } |
            Instr::Ldb { rs1, .. } |
            Instr::Ldh { rs1, .. } |
            Instr::Ld { rs1, .. } |
            Instr::Stb { rs1, .. } |
            Instr::Sth { rs1, .. } |
            Instr::St { rs1, .. } |
            Instr::Bne { rs1, .. } |
            Instr::Beq { rs1, .. } |
            Instr::Blt { rs1, .. } |
            Instr::Bgt { rs1, .. } => rs1,
            _ => Register::NoReg,
        }
    }

    /// The `rs2` field; `NoReg` where the instruction has none.
    pub open spec fn spec_rs2(self) -> Register {
        match self {
            Instr::Add { rs2, .. } |
            Instr::Sub { rs2, .. } |
            Instr::Xor { rs2, .. } |
            Instr::Or { rs2, .. } |
            Instr::And { rs2, .. } |
            Instr::Shr { rs2, .. } |
            Instr::Shl { rs2, .. } |
            Instr::Mul { rs2, .. } |
            Instr::Div { rs2, .. } => rs2,
            _ => Register::NoReg,
        }
    }

    /// The sign-extended 16-bit immediate; 0 where the instruction has none.
    pub open spec fn spec_imm(self) -> i32 {
        match self {
            Instr::Addi { imm, .. } |
            Instr::Subi { imm, .. } |
            Instr::Xori { imm, .. } |
            Instr::Ori { imm, .. } |
            Instr::Andi { imm, .. } |
            Instr::Ldb { imm, .. } |
            Instr::Ldh { imm, .. } |
            Instr::Ld { imm, .. } |
            Instr::Stb { imm, .. } |
            Instr::Sth { imm, .. } |
            Instr::St { imm, .. } |
            Instr::Bne { imm, .. } |
            Instr::Beq { imm, .. } |
            Instr::Blt { imm, .. } |
            Instr::Bgt { imm, .. } |
            Instr::Lui { imm, .. } => imm,
            _ => 0,
        }
    }

    /// The sign-extended 21-bit offset; 0 where the instruction has none.
    pub open spec fn spec_offset(self) -> i32 {
        match self {
            Instr::Jmpr { offset, .. } | Instr::Call { offset, .. } => offset,
            _ => 0,
        }
    }

    /// The registers this instruction writes, in the order the hazard check
    /// visits them. Stores count as writing `rs3`.
    pub open spec fn writes(self) -> Seq<Register> {
        match self.spec_code() {
            Some(c) => if c.is_alu() || c.is_alu_imm() || c.is_load() || c.is_store()
                || c == InstrCode::Lui {
                seq![self.spec_rs3()]
            } else if c == InstrCode::Call || c == InstrCode::Ret {
                seq![Register::R14, Register::R15]
            } else {
                Seq::empty()
            },
            None => Seq::empty(),
        }
    }

    /// The registers this instruction reads.
    pub open spec fn reads(self) -> Seq<Register> {
        match self.spec_code() {
            Some(c) => if c.is_alu() {
                seq![self.spec_rs1(), self.spec_rs2()]
            } else if c.is_alu_imm() || c.is_load() {
                seq![self.spec_rs1()]
            } else if c.is_branch() || c.is_store() {
                seq![self.spec_rs3(), self.spec_rs1()]
            } else if c == InstrCode::Jmpr {
                seq![self.spec_rs3()]
            } else if c == InstrCode::Call || c == InstrCode::Ret {
                seq![Register::R14]
            } else {
                Seq::empty()
            },
            None => Seq::empty(),
        }
    }

    /// Every register whose value the decode stage takes from the register
    /// file exists: every register field of the instruction but the unused
    /// one of `Call`.
    pub open spec fn operands_exist(self) -> bool {
        match self.spec_code() {
            Some(c) => if c.is_alu() {
                self.spec_rs1().is_real() && self.spec_rs2().is_real() && self.spec_rs3().is_real()
            } else if c.has_imm_format() {
                self.spec_rs1().is_real() && self.spec_rs3().is_real()
            } else if c == InstrCode::Lui || c == InstrCode::Jmpr {
                self.spec_rs3().is_real()
            } else {
                true
            },
            None => true,
        }
    }

    /// An instruction that has an encoding: it has an operation, its register
    /// fields name registers of the file, and its immediate or offset fits
    /// the field that carries it.
    pub open spec fn well_formed(self) -> bool {
        match self.spec_code() {
            Some(c) => {
                &&& self.operands_exist()
                &&& (c == InstrCode::Call ==> self.spec_rs3().is_real())
                &&& -0x8000 <= self.spec_imm() < 0x8000
                &&& -0x10_0000 <= self.spec_offset() < 0x10_0000
            },
            None => false,
        }
    }

    /// The 32-bit word that encodes a well-formed instruction.
    pub open spec fn spec_encode(self) -> u32 {
        match self.spec_code() {
            Some(c) => {
                let op = c.number() << 26;
                let rs3 = (self.spec_rs3().number() as u32) << 21;
                let rs1 = (self.spec_rs1().number() as u32) << 16;
                let rs2 = (self.spec_rs2().number() as u32) << 11;
                if c.is_alu() {
                    op | rs3 | rs1 | rs2
                } else if c.has_imm_format() {
                    op | rs3 | rs1 | (self.spec_imm() as u32 & 0xffff)
                } else if c == InstrCode::Lui {
                    op | rs3 | (self.spec_imm() as u32 & 0xffff)
                } else if c == InstrCode::Jmpr || c == InstrCode::Call {
                    op | rs3 | (self.spec_offset() as u32 & 0x1f_ffff)
                } else if c == InstrCode::Ret {
                    op | (14u32 << 21)
                } else {
                    op
                }
            },
            None => 0,
        }
    }

    /// The operation of this instruction; `None` for `Empty` and `Invalid`.
    #[verifier::when_used_as_spec(spec_code)]
    pub fn code(self) -> (c: Option<InstrCode>)
        ensures
            c == self.spec_code(),
    {
        match self {
            Instr::Empty => None,
            Instr::Invalid => None,
            Instr::Add { .. } => Some(InstrCode::Add),
            Instr::Sub { .. } => Some(InstrCode::Sub),
            Instr::Xor { .. } => Some(InstrCode::Xor),
            Instr::Or { .. } => Some(InstrCode::Or),
            Instr::And { .. } => Some(InstrCode::And),
            Instr::Shr { .. } => Some(InstrCode::Shr),
            Instr::Shl { .. } => Some(InstrCode::Shl),
            Instr::Addi { .. } => Some(InstrCode::Addi),
            Instr::Subi { .. } => Some(InstrCode::Subi),
            Instr::Xori { .. } => Some(InstrCode::Xori),
            Instr::Ori { .. } => Some(InstrCode::Ori),
            Instr::Andi { .. } => Some(InstrCode::Andi),
            Instr::Lui { .. } => Some(InstrCode::Lui),
            Instr::Ldb { .. } => Some(InstrCode::Ldb),
            Instr::Ldh { .. } => Some(InstrCode::Ldh),
            Instr::Ld { .. } => Some(InstrCode::Ld),
            Instr::Stb { .. } => Some(InstrCode::Stb),
            Instr::Sth { .. } => Some(InstrCode::Sth),
            Instr::St { .. } => Some(InstrCode::St),
            Instr::Bne { .. } => Some(InstrCode::Bne),
            Instr::Beq { .. } => Some(InstrCode::Beq),
            Instr::Blt { .. } => Some(InstrCode::Blt),
            Instr::Bgt { .. } => Some(InstrCode::Bgt),
            Instr::Jmpr { .. } => Some(InstrCode::Jmpr),
            Instr::Call { .. } => Some(InstrCode::Call),
            Instr::Ret { .. } => Some(InstrCode::Ret),
            Instr::Nop => Some(InstrCode::Nop),
            Instr::Mul { .. } => Some(InstrCode::Mul),
            Instr::Div { .. } => Some(InstrCode::Div),
            Instr::Int0 { .. } => Some(InstrCode::Int0),
        }
    }

    /// The `rs3` field; `NoReg` where the instruction has none.
    #[verifier::when_used_as_spec(spec_rs3)]
    pub fn rs3(self) -> (r: Register)
        ensures
            r == self.spec_rs3(),
    {
        match self {
            Instr::Add { rs3, .. } |
            Instr::Sub { rs3, .. } |
            Instr::Xor { rs3, .. } |
            Instr::Or { rs3, .. } |
            Instr::And { rs3, .. } |
            Instr::Shr { rs3, .. } |
            Instr::Shl { rs3, .. } |
            Instr::Mul { rs3, .. } |
            Instr::Div { rs3, .. } |
            Instr::Addi { rs3, .. } |
            Instr::Subi { rs3, .. } |
            Instr::Xori { rs3, .. } |
            Instr::Ori { rs3, .. } |
            Instr::Andi { rs3, .. } |
            Instr::Ldb { rs3, .. } |
            Instr::Ldh { rs3, .. } |
            Instr::Ld { rs3, .. } |
            Instr::Stb { rs3, .. } |
            Instr::Sth { rs3, .. } |
            Instr::St { rs3, .. } |
            Instr::Bne { rs3, .. } |
            Instr::Beq { rs3, .. } |
            Instr::Blt { rs3, .. } |
            Instr::Bgt { rs3, .. } |
            Instr::Lui { rs3, .. } |
            Instr::Jmpr { rs3, .. } |
            Instr::Call { rs3, .. } => rs3,
            _ => Register::NoReg,
        }
    }

    /// The `rs1` field; `NoReg` where the instruction has none.
    #[verifier::when_used_as_spec(spec_rs1)]
    pub fn rs1(self) -> (r: Register)
        ensures
            r == self.spec_rs1(),
    {
        match self {
            Instr::Add { rs1, .. } |
            Instr::Sub { rs1, .. } |
            Instr::Xor { rs1, .. } |
            Instr::Or { rs1, .. } |
            Instr::And { rs1, .. } |
            Instr::Shr { rs1, .. } |
            Instr::Shl { rs1, .. } |
            Instr::Mul { rs1, .. } |
            Instr::Div { rs1, .. } |
            Instr::Addi { rs1, .. } |
            Instr::Subi { rs1, .. } |
            Instr::Xori { rs1, .. } |
            Instr::Ori { rs1, .. } |
            Instr::Andi { rs1, .. } |
            Instr::Ldb { rs1, .. } |
            Instr::Ldh { rs1, .. } |
            Instr::Ld { rs1, .. } |
            Instr::Stb { rs1, .. } |
            Instr::Sth { rs1, .. } |
            Instr::St { rs1, .. } |
            Instr::Bne { rs1, .. } |
            Instr::Beq { rs1, .. } |
            Instr::Blt { rs1, .. } |
            Instr::Bgt { rs1, .. } => rs1,
            _ => Register::NoReg,
        }
    }

    /// The `rs2` field; `NoReg` where the instruction has none.
    #[verifier::when_used_as_spec(spec_rs2)]
    pub fn rs2(self) -> (r: Register)
        ensures
            r == self.spec_rs2(),
    {
        match self {
            Instr::Add { rs2, .. } |
            Instr::Sub { rs2, .. } |
            Instr::Xor { rs2, .. } |
            Instr::Or { rs2, .. } |
            Instr::And { rs2, .. } |
            Instr::Shr { rs2, .. } |
            Instr::Shl { rs2, .. } |
            Instr::Mul { rs2, .. } |
            Instr::Div { rs2, .. } => rs2,
            _ => Register::NoReg,
        }
    }

    /// The sign-extended 16-bit immediate; 0 where the instruction has none.
    #[verifier::when_used_as_spec(spec_imm)]
    pub fn imm(self) -> (r: i32)
        ensures
            r == self.spec_imm(),
    {
        match self {
            Instr::Addi { imm, .. } |
            Instr::Subi { imm, .. } |
            Instr::Xori { imm, .. } |
            Instr::Ori { imm, .. } |
            Instr::Andi { imm, .. } |
            Instr::Ldb { imm, .. } |
            Instr::Ldh { imm, .. } |
            Instr::Ld { imm, .. } |
            Instr::Stb { imm, .. } |
            Instr::Sth { imm, .. } |
            Instr::St { imm, .. } |
            Instr::Bne { imm, .. } |
            Instr::Beq { imm, .. } |
            Instr::Blt { imm, .. } |
            Instr::Bgt { imm, .. } |
            Instr::Lui { imm, .. } => imm,
            _ => 0,
        }
    }

    /// The sign-extended 21-bit offset; 0 where the instruction has none.
    #[verifier::when_used_as_spec(spec_offset)]
    pub fn offset(self) -> (r: i32)
        ensures
            r == self.spec_offset(),
    {
        match self {
            Instr::Jmpr { offset, .. } | Instr::Call { offset, .. } => offset,
            _ => 0,
        }
    }

    /// The registers this instruction writes.
    pub fn writes_to_rs3(&self) -> (v: Vec<Register>)
        ensures
            v@ == self.writes(),
    {
        match self {
            Instr::Add { rs3, .. } |
            Instr::Sub { rs3, .. } |
            Instr::Xor { rs3, .. } |
            Instr::Or { rs3, .. } |
            Instr::And { rs3, .. } |
            Instr::Shr { rs3, .. } |
            Instr::Shl { rs3, .. } |
            Instr::Mul { rs3, .. } |
            Instr::Div { rs3, .. } |
            Instr::Addi { rs3, .. } |
            Instr::Subi { rs3, .. } |
            Instr::Xori { rs3, .. } |
            Instr::Ori { rs3, .. } |
            Instr::Andi { rs3, .. } |
            Instr::Lui { rs3, .. } |
            Instr::Ldb { rs3, .. } |
            Instr::Ldh { rs3, .. } |
            Instr::Ld { rs3, .. } |
            Instr::Stb { rs3, .. } |
            Instr::Sth { rs3, .. } |
            Instr::St { rs3, .. } => vec![*rs3],
            Instr::Call { .. } | Instr::Ret { .. } => vec![Register::R14, Register::R15],
            _ => Vec::new(),
        }
    }

    /// The registers this instruction reads.
    pub fn uses_regs(&self) -> (v: Vec<Register>)
        ensures
            v@ == self.reads(),
    {
        match self {
            Instr::Add { rs1, rs2, .. } |
            Instr::Sub { rs1, rs2, .. } |
            Instr::Xor { rs1, rs2, .. } |
            Instr::Or { rs1, rs2, .. } |
            Instr::And { rs1, rs2, .. } |
            Instr::Shr { rs1, rs2, .. } |
            Instr::Shl { rs1, rs2, .. } |
            Instr::Mul { rs1, rs2, .. } |
            Instr::Div { rs1, rs2, .. } => vec![*rs1, *rs2],
            Instr::Ldb { rs1, .. } |
            Instr::Ldh { rs1, .. } |
            Instr::Ld { rs1, .. } |
            Instr::Addi { rs1, .. } |
            Instr::Subi { rs1, .. } |
            Instr::Xori { rs1, .. } |
            Instr::Ori { rs1, .. } |
            Instr::Andi { rs1, .. } => vec![*rs1],
            Instr::Bne { rs3, rs1, .. } |
            Instr::Beq { rs3, rs1, .. } |
            Instr::Blt { rs3, rs1, .. } |
            Instr::Bgt { rs3, rs1, .. } |
            Instr::Stb { rs3, rs1, .. } |
            Instr::Sth { rs3, rs1, .. } |
            Instr::St { rs3, rs1, .. } => vec![*rs3, *rs1],
            Instr::Jmpr { rs3, .. } => vec![*rs3],
            Instr::Ret { .. } | Instr::Call { .. } => vec![Register::R14],
            _ => Vec::new(),
        }
    }

    /// Whether every register that the decode stage reads exists.
    pub fn has_operands(&self) -> (b: bool)
        ensures
            b == self.operands_exist(),
    {
        match self {
            Instr::Add { rs3, rs1, rs2 } |
            Instr::Sub { rs3, rs1, rs2 } |
            Instr::Xor { rs3, rs1, rs2 } |
            Instr::Or { rs3, rs1, rs2 } |
            Instr::And { rs3, rs1, rs2 } |
            Instr::Shr { rs3, rs1, rs2 } |
            Instr::Shl { rs3, rs1, rs2 } |
            Instr::Mul { rs3, rs1, rs2 } |
            Instr::Div { rs3, rs1, rs2 } => {
                rs1.in_file() && rs2.in_file() && rs3.in_file()
            },
            Instr::Addi { rs3, rs1, .. } |
            Instr::Subi { rs3, rs1, .. } |
            Instr::Xori { rs3, rs1, .. } |
            Instr::Ori { rs3, rs1, .. } |
            Instr::Andi { rs3, rs1, .. } |
            Instr::Ldb { rs3, rs1, .. } |
            Instr::Ldh { rs3, rs1, .. } |
            Instr::Ld { rs3, rs1, .. } |
            Instr::Stb { rs3, rs1, .. } |
            Instr::Sth { rs3, rs1, .. } |
            Instr::St { rs3, rs1, .. } |
            Instr::Bne { rs3, rs1, .. } |
            Instr::Beq { rs3, rs1, .. } |
            Instr::Blt { rs3, rs1, .. } |
            Instr::Bgt { rs3, rs1, .. } => {
                rs1.in_file() && rs3.in_file()
            },
            Instr::Lui { rs3, .. } | Instr::Jmpr { rs3, .. } => {
                rs3.in_file()
            },
            _ => true,
        }
    }

    /// Encode a well-formed instruction into its 32-bit word.
    pub fn encode(&self) -> (w: u32)
        requires
            self.well_formed(),
        ensures
            w == self.spec_encode(),
    {
        match self {
            Instr::Empty | Instr::Invalid => 0,
            Instr::Add { rs3, rs1, rs2 } |
            Instr::Sub { rs3, rs1, rs2 } |
            Instr::Xor { rs3, rs1, rs2 } |
            Instr::Or { rs3, rs1, rs2 } |
            Instr::And { rs3, rs1, rs2 } |
            Instr::Shr { rs3, rs1, rs2 } |
            Instr::Shl { rs3, rs1, rs2 } |
            Instr::Mul { rs3, rs1, rs2 } |
            Instr::Div { rs3, rs1, rs2 } => {
                let c = self.code().unwrap();
                encode_opcode(c) | encode_rs3(reg_number(*rs3)) | encode_rs1(reg_number(*rs1))
                    | encode_rs2(reg_number(*rs2))
            },
            Instr::Addi { rs3, rs1, imm } |
            Instr::Subi { rs3, rs1, imm } |
            Instr::Xori { rs3, rs1, imm } |
            Instr::Ori { rs3, rs1, imm } |
            Instr::Andi { rs3, rs1, imm } |
            Instr::Ldb { rs3, rs1, imm } |
            Instr::Ldh { rs3, rs1, imm } |
            Instr::Ld { rs3, rs1, imm } |
            Instr::Stb { rs3, rs1, imm } |
            Instr::Sth { rs3, rs1, imm } |
            Instr::St { rs3, rs1, imm } |
            Instr::Bne { rs3, rs1, imm } |
            Instr::Beq { rs3, rs1, imm } |
            Instr::Blt { rs3, rs1, imm } |
            Instr::Bgt { rs3, rs1, imm } => {
                let c = self.code().unwrap();
                encode_opcode(c) | encode_rs3(reg_number(*rs3)) | encode_rs1(reg_number(*rs1))
                    | encode_imm(#[verifier::truncate] (*imm as u32))
            },
            Instr::Lui { rs3, imm } => {
                encode_opcode(InstrCode::Lui) | encode_rs3(reg_number(*rs3))
                    | encode_imm(#[verifier::truncate] (*imm as u32))
            },
            Instr::Jmpr { rs3, offset } | Instr::Call { rs3, offset } => {
                let c = self.code().unwrap();
                encode_opcode(c) | encode_rs3(reg_number(*rs3))
                    | encode_offset(#[verifier::truncate] (*offset as u32))
            },
            Instr::Ret { } => encode_opcode(InstrCode::Ret) | encode_rs3(14),
            Instr::Nop => encode_opcode(InstrCode::Nop),
            Instr::Int0 { } => encode_opcode(InstrCode::Int0),
        }
    }
}

/// The number of a register as a field value.
pub fn reg_number(reg: Register) -> (n: u32)
    ensures
        n == reg.number(),
        n <= 16,
{
    match reg {
        Register::R0 => 0,
        Register::R1 => 1,
        Register::R2 => 2,
        Register::R3 => 3,
        Register::R4 => 4,
        Register::R5 => 5,
        Register::R6 => 6,
        Register::R7 => 7,
        Register::R8 => 8,
        Register::R9 => 9,
        Register::R10 => 10,
        Register::R11 => 11,
        Register::R12 => 12,
        Register::R13 => 13,
        Register::R14 => 14,
        Register::R15 => 15,
        Register::NoReg => 16,
    }
}

/// A value of `bits` bits read as a two's complement number.
pub open spec fn sign_extend(v: u32, bits: nat) -> i32
    recommends
        bits == 16 || bits == 21,
{
    if bits == 16 {
        if v < 0x8000 {
            v as i32
        } else {
            (v - 0x1_0000) as i32
        }
    } else {
        if v < 0x10_0000 {
            v as i32
        } else {
            (v - 0x20_0000) as i32
        }
    }
}

/// Bits 31..26 of an instruction word.
pub open spec fn field_opcode(w: u32) -> u32 {
    w >> 26
}

/// Bits 25..21 of an instruction word.
pub open spec fn field_rs3(w: u32) -> u32 {
    (w >> 21) & 0x1f
}

/// Bits 20..16 of an instruction word.
pub open spec fn field_rs1(w: u32) -> u32 {
    (w >> 16) & 0x1f
}

/// Bits 15..11 of an instruction word.
pub open spec fn field_rs2(w: u32) -> u32 {
    (w >> 11) & 0x1f
}

/// Bits 15..0 of an instruction word, sign-extended.
pub open spec fn field_imm(w: u32) -> i32 {
    sign_extend(w & 0xffff, 16)
}

/// Bits 20..0 of an instruction word, sign-extended.
pub open spec fn field_offset(w: u32) -> i32 {
    sign_extend(w & 0x1f_ffff, 21)
}

/// The instruction with the given operation and fields. Fields that the
/// operation's format does not carry are ignored.
pub open spec fn instr_of(
    code: InstrCode,
    rs3: Register,
    rs1: Register,
    rs2: Register,
    imm: i32,
    offset: i32,
) -> Instr {
    match code {
        InstrCode::Add => Instr::Add { rs3, rs1, rs2 },
        InstrCode::Sub => Instr::Sub { rs3, rs1, rs2 },
        InstrCode::Xor => Instr::Xor { rs3, rs1, rs2 },
        InstrCode::Or => Instr::Or { rs3, rs1, rs2 },
        InstrCode::And => Instr::And { rs3, rs1, rs2 },
        InstrCode::Shr => Instr::Shr { rs3, rs1, rs2 },
        InstrCode::Shl => Instr::Shl { rs3, rs1, rs2 },
        InstrCode::Addi => Instr::Addi { rs3, rs1, imm },
        InstrCode::Subi => Instr::Subi { rs3, rs1, imm },
        InstrCode::Xori => Instr::Xori { rs3, rs1, imm },
        InstrCode::Ori => Instr::Ori { rs3, rs1, imm },
        InstrCode::Andi => Instr::Andi { rs3, rs1, imm },
        InstrCode::Lui => Instr::Lui { rs3, imm },
        InstrCode::Ldb => Instr::Ldb { rs3, rs1, imm },
        InstrCode::Ldh => Instr::Ldh { rs3, rs1, imm },
        InstrCode::Ld => Instr::Ld { rs3, rs1, imm },
        InstrCode::Stb => Instr::Stb { rs3, rs1, imm },
        InstrCode::Sth => Instr::Sth { rs3, rs1, imm },
        InstrCode::St => Instr::St { rs3, rs1, imm },
        InstrCode::Bne => Instr::Bne { rs3, rs1, imm },
        InstrCode::Beq => Instr::Beq { rs3, rs1, imm },
        InstrCode::Blt => Instr::Blt { rs3, rs1, imm },
        InstrCode::Bgt => Instr::Bgt { rs3, rs1, imm },
        InstrCode::Jmpr => Instr::Jmpr { rs3, offset },
        InstrCode::Call => Instr::Call { rs3, offset },
        InstrCode::Ret => Instr::Ret { },
        InstrCode::Nop => Instr::Nop,
        InstrCode::Mul => Instr::Mul { rs3, rs1, rs2 },
        InstrCode::Div => Instr::Div { rs3, rs1, rs2 },
        InstrCode::Int0 => Instr::Int0 { },
    }
}

/// The instruction that a word encodes. A word whose operation number is
/// outside the table encodes none.
pub open spec fn spec_decode(w: u32) -> Result<Instr, SimErr> {
    match InstrCode::of_number(field_opcode(w)) {
        Some(code) => Ok(
            instr_of(
                code,
                Register::of_number(field_rs3(w) as int),
                Register::of_number(field_rs1(w) as int),
                Register::of_number(field_rs2(w) as int),
                field_imm(w),
                field_offset(w),
            ),
        ),
        None => Err(SimErr::InstrDecode),
    }
}

/// Decode an instruction word.
pub fn decode_instr(instr: u32) -> (r: Result<Instr, SimErr>)
    ensures
        r == spec_decode(instr),
        r is Ok ==> r->Ok_0.spec_code() is Some,
{
    let rs1 = Register::from(extract_rs1(instr));
    let rs2 = Register::from(extract_rs2(instr));
    let rs3 = Register::from(extract_rs3(instr));
    let offset = extract_offset(instr);
    let imm = extract_imm(instr);

    match InstrCode::from_opcode(extract_opcode(instr)) {
        Some(code) => Ok(
            match code {
                InstrCode::Add => Instr::Add { rs3, rs1, rs2 },
                InstrCode::Sub => Instr::Sub { rs3, rs1, rs2 },
                InstrCode::Xor => Instr::Xor { rs3, rs1, rs2 },
                InstrCode::Or => Instr::Or { rs3, rs1, rs2 },
                InstrCode::And => Instr::And { rs3, rs1, rs2 },
                InstrCode::Shr => Instr::Shr { rs3, rs1, rs2 },
                InstrCode::Shl => Instr::Shl { rs3, rs1, rs2 },
                InstrCode::Addi => Instr::Addi { rs3, rs1, imm },
                InstrCode::Subi => Instr::Subi { rs3, rs1, imm },
                InstrCode::Xori => Instr::Xori { rs3, rs1, imm },
                InstrCode::Ori => Instr::Ori { rs3, rs1, imm },
                InstrCode::Andi => Instr::Andi { rs3, rs1, imm },
                InstrCode::Lui => Instr::Lui { rs3, imm },
                InstrCode::Ldb => Instr::Ldb { rs3, rs1, imm },
                InstrCode::Ldh => Instr::Ldh { rs3, rs1, imm },
                InstrCode::Ld => Instr::Ld { rs3, rs1, imm },
                InstrCode::Stb => Instr::Stb { rs3, rs1, imm },
                InstrCode::Sth => Instr::Sth { rs3, rs1, imm },
                InstrCode::St => Instr::St { rs3, rs1, imm },
                InstrCode::Bne => Instr::Bne { rs3, rs1, imm },
                InstrCode::Beq => Instr::Beq { rs3, rs1, imm },
                InstrCode::Blt => Instr::Blt { rs3, rs1, imm },
                InstrCode::Bgt => Instr::Bgt { rs3, rs1, imm },
                InstrCode::Jmpr => Instr::Jmpr { rs3, offset },
                InstrCode::Call => Instr::Call { rs3, offset },
                InstrCode::Ret => Instr::Ret { },
                InstrCode::Nop => Instr::Nop,
                InstrCode::Mul => Instr::Mul { rs3, rs1, rs2 },
                InstrCode::Div => Instr::Div { rs3, rs1, rs2 },
                InstrCode::Int0 => Instr::Int0 { },
            },
        ),
        None => Err(SimErr::InstrDecode),
    }
}

/// Extract the bits representing the instr `opcode` from the provided value
pub fn extract_opcode(val: u32) -> (r: u32)
    ensures
        r == field_opcode(val),
{
    val >> 26
}

/// Extract the bits representing the instr `rs3` from the provided value
pub fn extract_rs3(val: u32) -> (r: u32)
    ensures
        r == field_rs3(val),
{
    (val >> 21) & 0b11111
}

/// Extract the bits representing the instr `rs1` from the provided value
pub fn extract_rs1(val: u32) -> (r: u32)
    ensures
        r == field_rs1(val),
{
    (val >> 16) & 0b11111
}

/// Extract the bits representing the instr `rs2` from the provided value
pub fn extract_rs2(val: u32) -> (r: u32)
    ensures
        r == field_rs2(val),
{
    (val >> 11) & 0b11111
}

/// Extract the bits representing the instr `imm` from the provided value
pub fn extract_imm(val: u32) -> (r: i32)
    ensures
        r == field_imm(val),
{
    // Sign-extend result
    let r = ((#[verifier::truncate] ((val & 0xffff) as i32)) << 16) >> 16;
    assert(r == sign_extend(val & 0xffff, 16)) by (bit_vector)
        requires
            r == (((val & 0xffff) as i32) << 16) >> 16,
    ;
    r
}

/// Extract the bits representing the instr `offset` from the provided value
pub fn extract_offset(val: u32) -> (r: i32)
    ensures
        r == field_offset(val),
{
    // Sign-extend result
    let r = ((#[verifier::truncate] ((val & 0x1fffff) as i32)) << 11) >> 11;
    assert(r == sign_extend(val & 0x1fffff, 21)) by (bit_vector)
        requires
            r == (((val & 0x1fffff) as i32) << 11) >> 11,
    ;
    r
}

/// Encode `val` into the position `rs1` is expected in an instruction
pub fn encode_rs1(val: u32) -> (r: u32)
    ensures
        r == val << 16,
{
    val << 16
}

/// Encode `val` into the position `rs2` is expected in an instruction
pub fn encode_rs2(val: u32) -> (r: u32)
    ensures
        r == val << 11,
{
    val << 11
}

/// Encode `val` into the position `rs3` is expected in an instruction
pub fn encode_rs3(val: u32) -> (r: u32)
    ensures
        r == val << 21,
{
    val << 21
}

/// Encode `val` into the position `imm` is expected in an instruction
pub fn encode_imm(val: u32) -> (r: u32)
    ensures
        r == val & 0xffff,
{
    val & 0xffff
}

/// Encode `val` into the position `offset` is expected in an instruction
pub fn encode_offset(val: u32) -> (r: u32)
    ensures
        r == val & 0x1f_ffff,
{
    val & 0x1fffff
}

/// Encode an operation into the position the opcode is expected in an instruction
pub fn encode_opcode(code: InstrCode) -> (r: u32)
    ensures
        r == code.number() << 26,
{
    code.opcode() << 26
}

/// Fields packed into a three-register word come out of it unchanged.
proof fn lemma_fields_alu(op: u32, a: u32, b: u32, c: u32)
    by (bit_vector)
    requires
        op < 64,
        a < 32,
        b < 32,
        c < 32,
    ensures
        ({
            let w = (op << 26) | (a << 21) | (b << 16) | (c << 11);
            &&& w >> 26 == op
            &&& (w >> 21) & 0x1f == a
            &&& (w >> 16) & 0x1f == b
            &&& (w >> 11) & 0x1f == c
        }),
{
}

/// Fields packed into a word with an immediate come out of it unchanged.
proof fn lemma_fields_imm(op: u32, a: u32, b: u32, imm: i32)
    by (bit_vector)
    requires
        op < 64,
        a < 32,
        b < 32,
        -0x8000 <= imm < 0x8000,
    ensures
        ({
            let w = (op << 26) | (a << 21) | (b << 16) | (imm as u32 & 0xffff);
            &&& w >> 26 == op
            &&& (w >> 21) & 0x1f == a
            &&& (w >> 16) & 0x1f == b
            &&& sign_extend(w & 0xffff, 16) == imm
        }),
{
}

/// Fields packed into a word with an offset come out of it unchanged.
proof fn lemma_fields_offset(op: u32, a: u32, offset: i32)
    by (bit_vector)
    requires
        op < 64,
        a < 32,
        -0x10_0000 <= offset < 0x10_0000,
    ensures
        ({
            let w = (op << 26) | (a << 21) | (offset as u32 & 0x1f_ffff);
            &&& w >> 26 == op
            &&& (w >> 21) & 0x1f == a
            &&& sign_extend(w & 0x1f_ffff, 21) == offset
        }),
{
}

/// A word that holds nothing below its opcode but a zero keeps its opcode.
proof fn lemma_fields_plain(op: u32, a: u32)
    by (bit_vector)
    requires
        op < 64,
        a < 32,
    ensures
        ((op << 26) | (a << 21)) >> 26 == op,
        (op << 26) >> 26 == op,
        (op << 26) | (0u32 << 16) == op << 26,
{
}

/// Decoding the encoding of a well-formed instruction gives the instruction back.
pub proof fn lemma_decode_encode(i: Instr)
    requires
        i.well_formed(),
    ensures
        spec_decode(i.spec_encode()) == Ok::<Instr, SimErr>(i),
{
    let c = i.spec_code().unwrap();
    let op = c.number();
    c.lemma_number_roundtrip();
    let a = i.spec_rs3().number() as u32;
    let b = i.spec_rs1().number() as u32;
    let d = i.spec_rs2().number() as u32;
    i.spec_rs3().lemma_number_roundtrip();
    i.spec_rs1().lemma_number_roundtrip();
    i.spec_rs2().lemma_number_roundtrip();
    if c.is_alu() {
        lemma_fields_alu(op, a, b, d);
    } else if c.has_imm_format() {
        lemma_fields_imm(op, a, b, i.spec_imm());
    } else if c == InstrCode::Lui {
        lemma_fields_imm(op, a, 0, i.spec_imm());
        lemma_fields_plain(op, a);
        assert((op << 26) | (a << 21) | (0u32 << 16) == (op << 26) | (a << 21)) by (bit_vector);
    } else if c == InstrCode::Jmpr || c == InstrCode::Call {
        lemma_fields_offset(op, a, i.spec_offset());
    } else {
        lemma_fields_plain(op, 14);
    }
}

} // verus!
