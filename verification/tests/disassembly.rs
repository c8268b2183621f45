use seal_isa::cpu::{Instr, Register};
use seal_isa::disassembly::code_name;
use seal_isa::cpu::InstrCode;

#[test]
fn register_names() {
    assert_eq!(Register::R0.to_text(), "r0");
    assert_eq!(Register::R9.to_text(), "r9");
    assert_eq!(Register::R10.to_text(), "r10");
    assert_eq!(Register::R15.to_text(), "r15");
}

#[test]
fn text_of_each_format() {
    let (a, b, c) = (Register::R1, Register::R12, Register::R3);
    assert_eq!(Instr::Empty.to_text(), "");
    assert_eq!(Instr::Invalid.to_text(), "<invld>");
    assert_eq!(Instr::Add { rs3: a, rs1: b, rs2: c }.to_text(), "add r1 r12 r3");
    assert_eq!(Instr::Div { rs3: a, rs1: b, rs2: c }.to_text(), "div r1 r12 r3");
    assert_eq!(Instr::Addi { rs3: a, rs1: b, imm: 5 }.to_text(), "addi r1 r12 0x5");
    assert_eq!(Instr::Subi { rs3: a, rs1: b, imm: -32 }.to_text(), "subi r1 r12 -0x20");
    assert_eq!(Instr::Ld { rs3: a, rs1: b, imm: 0 }.to_text(), "ld r1 r12 0x0");
    assert_eq!(Instr::Stb { rs3: a, rs1: b, imm: 0x2000 }.to_text(), "stb r1 r12 0x2000");
    assert_eq!(Instr::Bne { rs3: a, rs1: b, imm: -4 }.to_text(), "bne r1 r12 -0x4");
    assert_eq!(Instr::Bgt { rs3: a, rs1: b, imm: 0xabc }.to_text(), "bgt r1 r12 0xabc");
    assert_eq!(Instr::Jmpr { rs3: a, offset: -0x10 }.to_text(), "jmpr r1 -0x10");
    assert_eq!(Instr::Jmpr { rs3: a, offset: 0xfffff }.to_text(), "jmpr r1 0xfffff");
    assert_eq!(Instr::Lui { rs3: a, imm: 0x1234 }.to_text(), "Lui r1 0x1234");
    assert_eq!(Instr::Lui { rs3: a, imm: -32 }.to_text(), "Lui r1 0xffffffe0");
    assert_eq!(Instr::Call { rs3: a, offset: 0x11000 }.to_text(), "Call 0x11000");
    assert_eq!(Instr::Call { rs3: Register::NoReg, offset: -1 }.to_text(), "Call 0xffffffff");
    assert_eq!(Instr::Ret {}.to_text(), "Ret");
    assert_eq!(Instr::Nop.to_text(), "Nop");
    assert_eq!(Instr::Int0 {}.to_text(), "Int0");
}

#[test]
fn bytes_of_the_text() {
    let instr = Instr::Addi { rs3: Register::R1, rs1: Register::R0, imm: -0x8000 };
    assert_eq!(instr.to_bytes(), b"addi r1 r0 -0x8000".to_vec());
    assert_eq!(code_name(InstrCode::Xori), "xori");
    assert_eq!(code_name(InstrCode::Int0), "Int0");
}
