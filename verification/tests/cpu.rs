use seal_isa::cpu::{
    decode_instr, encode_imm, encode_offset, encode_opcode, encode_rs1, encode_rs2, encode_rs3,
    extract_imm, extract_offset, extract_opcode, extract_rs1, extract_rs2, extract_rs3, reg_number,
    Instr, InstrCode, Register, NUM_REGS,
};
use seal_isa::simulator::SimErr;

const CODES: [(InstrCode, u32); 30] = [
    (InstrCode::Add, 2),
    (InstrCode::Sub, 3),
    (InstrCode::Xor, 4),
    (InstrCode::Or, 5),
    (InstrCode::And, 6),
    (InstrCode::Shr, 7),
    (InstrCode::Shl, 8),
    (InstrCode::Addi, 9),
    (InstrCode::Subi, 10),
    (InstrCode::Xori, 11),
    (InstrCode::Ori, 12),
    (InstrCode::Andi, 13),
    (InstrCode::Ldb, 14),
    (InstrCode::Ldh, 15),
    (InstrCode::Ld, 16),
    (InstrCode::Stb, 17),
    (InstrCode::Sth, 18),
    (InstrCode::St, 19),
    (InstrCode::Bne, 20),
    (InstrCode::Beq, 21),
    (InstrCode::Blt, 22),
    (InstrCode::Bgt, 23),
    (InstrCode::Jmpr, 25),
    (InstrCode::Lui, 26),
    (InstrCode::Call, 27),
    (InstrCode::Ret, 28),
    (InstrCode::Nop, 29),
    (InstrCode::Mul, 30),
    (InstrCode::Div, 31),
    (InstrCode::Int0, 40),
];

#[test]
fn opcode_table() {
    for (code, number) in CODES {
        assert_eq!(code.opcode(), number);
        assert_eq!(InstrCode::from_opcode(number), Some(code));
        assert_eq!(encode_opcode(code), number << 26);
    }
}

#[test]
fn numbers_outside_the_table_encode_no_operation() {
    for number in [0u32, 1, 24, 32, 39, 41, 63, 64, 1000] {
        assert_eq!(InstrCode::from_opcode(number), None);
    }
    assert_eq!(decode_instr(0), Err(SimErr::InstrDecode));
    assert_eq!(decode_instr(24 << 26), Err(SimErr::InstrDecode));
    assert_eq!(decode_instr(0xffff_ffff), Err(SimErr::InstrDecode));
}

#[test]
fn registers_from_numbers() {
    assert_eq!(NUM_REGS, 16);
    assert_eq!(Register::from(0), Register::R0);
    assert_eq!(Register::from(1), Register::R1);
    assert_eq!(Register::from(14), Register::R14);
    assert_eq!(Register::from(15), Register::R15);
    assert_eq!(Register::from(16), Register::NoReg);
    assert_eq!(Register::from(31), Register::NoReg);
    assert_eq!(Register::from(u32::MAX), Register::NoReg);
    for n in 0..16u32 {
        assert_eq!(Register::from(n).index(), n as usize);
        assert_eq!(reg_number(Register::from(n)), n);
        assert!(Register::from(n).in_file());
    }
    assert_eq!(Register::NoReg.index(), 16);
    assert!(!Register::NoReg.in_file());
    assert_eq!(Register::default(), Register::NoReg);
}

#[test]
fn fields_of_a_word() {
    let word = 0x0822_1800;
    assert_eq!(extract_opcode(word), 2);
    assert_eq!(extract_rs3(word), 1);
    assert_eq!(extract_rs1(word), 2);
    assert_eq!(extract_rs2(word), 3);
    assert_eq!(extract_opcode(0xffff_ffff), 63);
    assert_eq!(extract_rs3(0xffff_ffff), 31);
    assert_eq!(extract_rs1(0xffff_ffff), 31);
    assert_eq!(extract_rs2(0xffff_ffff), 31);
}

#[test]
fn immediates_are_sign_extended() {
    assert_eq!(extract_imm(0x0000_0005), 5);
    assert_eq!(extract_imm(0x0000_7fff), 0x7fff);
    assert_eq!(extract_imm(0x0000_8000), -0x8000);
    assert_eq!(extract_imm(0x0000_fffc), -4);
    assert_eq!(extract_imm(0xabcd_ffff), -1);
    assert_eq!(extract_offset(0x0000_0010), 0x10);
    assert_eq!(extract_offset(0x000f_ffff), 0xf_ffff);
    assert_eq!(extract_offset(0x0010_0000), -0x10_0000);
    assert_eq!(extract_offset(0x001f_fffc), -4);
    assert_eq!(extract_offset(0xffe0_0000), 0);
}

#[test]
fn fields_into_a_word() {
    assert_eq!(encode_rs1(2), 0x0002_0000);
    assert_eq!(encode_rs2(3), 0x0000_1800);
    assert_eq!(encode_rs3(1), 0x0020_0000);
    assert_eq!(encode_imm(0xffff_fffc), 0xfffc);
    assert_eq!(encode_imm(0x1_2345), 0x2345);
    assert_eq!(encode_offset(0xffff_fffc), 0x1f_fffc);
    assert_eq!(encode_offset(0x11000), 0x11000);
}

#[test]
fn decode_each_format() {
    let (r1, r2, r3) = (Register::R1, Register::R2, Register::R3);
    assert_eq!(decode_instr(0x0822_1800), Ok(Instr::Add { rs3: r1, rs1: r2, rs2: r3 }));
    assert_eq!(
        decode_instr(0x2420_0005),
        Ok(Instr::Addi { rs3: r1, rs1: Register::R0, imm: 5 })
    );
    assert_eq!(decode_instr(0x4C20_0000), Ok(Instr::St { rs3: r1, rs1: Register::R0, imm: 0 }));
    assert_eq!(
        decode_instr(0x5020_fffc),
        Ok(Instr::Bne { rs3: r1, rs1: Register::R0, imm: -4 })
    );
    assert_eq!(decode_instr(0x6840_1234), Ok(Instr::Lui { rs3: r2, imm: 0x1234 }));
    assert_eq!(decode_instr(0x6400_0010), Ok(Instr::Jmpr { rs3: Register::R0, offset: 0x10 }));
    assert_eq!(
        decode_instr(0x6C01_1000),
        Ok(Instr::Call { rs3: Register::R0, offset: 0x11000 })
    );
    assert_eq!(decode_instr(0x71C0_0000), Ok(Instr::Ret {}));
    assert_eq!(decode_instr(0x7400_0000), Ok(Instr::Nop));
    assert_eq!(decode_instr(0xA000_0000), Ok(Instr::Int0 {}));
    assert_eq!(
        decode_instr((31 << 26) | (15 << 21) | (14 << 16) | (13 << 11)),
        Ok(Instr::Div { rs3: Register::R15, rs1: Register::R14, rs2: Register::R13 })
    );
}

#[test]
fn register_fields_above_fifteen_name_no_register() {
    let word = (2 << 26) | (16 << 21) | (31 << 16) | (3 << 11);
    let instr = decode_instr(word).unwrap();
    assert_eq!(instr, Instr::Add { rs3: Register::NoReg, rs1: Register::NoReg, rs2: Register::R3 });
    assert!(!instr.has_operands());
    assert!(Instr::Add { rs3: Register::R1, rs1: Register::R2, rs2: Register::R3 }.has_operands());
    assert!(Instr::Call { rs3: Register::NoReg, offset: 4 }.has_operands());
    assert!(!Instr::Jmpr { rs3: Register::NoReg, offset: 4 }.has_operands());
    assert!(Instr::Nop.has_operands());
}

fn samples() -> Vec<Instr> {
    let (a, b, c) = (Register::R4, Register::R9, Register::R15);
    vec![
        Instr::Add { rs3: a, rs1: b, rs2: c },
        Instr::Sub { rs3: c, rs1: c, rs2: c },
        Instr::Xor { rs3: Register::R0, rs1: Register::R0, rs2: Register::R0 },
        Instr::Or { rs3: a, rs1: b, rs2: c },
        Instr::And { rs3: a, rs1: b, rs2: c },
        Instr::Shr { rs3: a, rs1: b, rs2: c },
        Instr::Shl { rs3: a, rs1: b, rs2: c },
        Instr::Mul { rs3: a, rs1: b, rs2: c },
        Instr::Div { rs3: a, rs1: b, rs2: c },
        Instr::Addi { rs3: a, rs1: b, imm: 0x7fff },
        Instr::Subi { rs3: a, rs1: b, imm: -0x8000 },
        Instr::Xori { rs3: a, rs1: b, imm: -1 },
        Instr::Ori { rs3: a, rs1: b, imm: 0 },
        Instr::Andi { rs3: a, rs1: b, imm: 1 },
        Instr::Lui { rs3: a, imm: -2 },
        Instr::Ldb { rs3: a, rs1: b, imm: 3 },
        Instr::Ldh { rs3: a, rs1: b, imm: -3 },
        Instr::Ld { rs3: a, rs1: b, imm: 0x100 },
        Instr::Stb { rs3: a, rs1: b, imm: 0x2000 },
        Instr::Sth { rs3: a, rs1: b, imm: 2 },
        Instr::St { rs3: a, rs1: b, imm: 4 },
        Instr::Bne { rs3: a, rs1: b, imm: -4 },
        Instr::Beq { rs3: a, rs1: b, imm: 8 },
        Instr::Blt { rs3: a, rs1: b, imm: -12 },
        Instr::Bgt { rs3: a, rs1: b, imm: 16 },
        Instr::Jmpr { rs3: a, offset: -0x10_0000 },
        Instr::Jmpr { rs3: Register::R0, offset: 0xf_ffff },
        Instr::Call { rs3: Register::R0, offset: 0x11000 },
        Instr::Call { rs3: c, offset: -4 },
        Instr::Ret {},
        Instr::Nop,
        Instr::Int0 {},
    ]
}

#[test]
fn decoding_an_encoding_gives_the_instruction_back() {
    for instr in samples() {
        assert_eq!(decode_instr(instr.encode()), Ok(instr), "{:?}", instr);
    }
}

#[test]
fn encoding_has_the_documented_layout() {
    assert_eq!(
        Instr::Add { rs3: Register::R1, rs1: Register::R2, rs2: Register::R3 }.encode(),
        0x0822_1800
    );
    assert_eq!(Instr::Addi { rs3: Register::R1, rs1: Register::R0, imm: 5 }.encode(), 0x2420_0005);
    assert_eq!(Instr::Bne { rs3: Register::R1, rs1: Register::R0, imm: -4 }.encode(), 0x5020_fffc);
    assert_eq!(Instr::Ret {}.encode(), 0x71C0_0000);
    assert_eq!(Instr::Call { rs3: Register::R0, offset: 0x11000 }.encode(), 0x6C01_1000);
    assert_eq!(Instr::Int0 {}.encode(), 0xA000_0000);
}

#[test]
fn code_of_an_instruction() {
    assert_eq!(Instr::Empty.code(), None);
    assert_eq!(Instr::Invalid.code(), None);
    assert_eq!(Instr::default(), Instr::Empty);
    assert_eq!(Instr::Ret {}.code(), Some(InstrCode::Ret));
    for instr in samples() {
        let code = instr.code().unwrap();
        assert_eq!(extract_opcode(instr.encode()), code.opcode());
    }
}

#[test]
fn registers_written() {
    let (a, b, c) = (Register::R4, Register::R9, Register::R15);
    assert_eq!(Instr::Add { rs3: a, rs1: b, rs2: c }.writes_to_rs3(), vec![a]);
    assert_eq!(Instr::Div { rs3: a, rs1: b, rs2: c }.writes_to_rs3(), vec![a]);
    assert_eq!(Instr::Andi { rs3: a, rs1: b, imm: 1 }.writes_to_rs3(), vec![a]);
    assert_eq!(Instr::Lui { rs3: a, imm: 1 }.writes_to_rs3(), vec![a]);
    assert_eq!(Instr::Ldb { rs3: a, rs1: b, imm: 1 }.writes_to_rs3(), vec![a]);
    assert_eq!(Instr::Ld { rs3: a, rs1: b, imm: 1 }.writes_to_rs3(), vec![a]);
    // Stores count as writing rs3.
    assert_eq!(Instr::Stb { rs3: a, rs1: b, imm: 1 }.writes_to_rs3(), vec![a]);
    assert_eq!(Instr::St { rs3: a, rs1: b, imm: 1 }.writes_to_rs3(), vec![a]);
    assert_eq!(Instr::Bne { rs3: a, rs1: b, imm: 1 }.writes_to_rs3(), vec![]);
    assert_eq!(Instr::Jmpr { rs3: a, offset: 1 }.writes_to_rs3(), vec![]);
    assert_eq!(
        Instr::Call { rs3: a, offset: 1 }.writes_to_rs3(),
        vec![Register::R14, Register::R15]
    );
    assert_eq!(Instr::Ret {}.writes_to_rs3(), vec![Register::R14, Register::R15]);
    assert_eq!(Instr::Int0 {}.writes_to_rs3(), vec![]);
    assert_eq!(Instr::Nop.writes_to_rs3(), vec![]);
    assert_eq!(Instr::Empty.writes_to_rs3(), vec![]);
    assert_eq!(Instr::Invalid.writes_to_rs3(), vec![]);
}

#[test]
fn registers_read() {
    let (a, b, c) = (Register::R4, Register::R9, Register::R15);
    assert_eq!(Instr::Add { rs3: a, rs1: b, rs2: c }.uses_regs(), vec![b, c]);
    assert_eq!(Instr::Shl { rs3: a, rs1: b, rs2: c }.uses_regs(), vec![b, c]);
    assert_eq!(Instr::Addi { rs3: a, rs1: b, imm: 1 }.uses_regs(), vec![b]);
    assert_eq!(Instr::Ldh { rs3: a, rs1: b, imm: 1 }.uses_regs(), vec![b]);
    assert_eq!(Instr::Sth { rs3: a, rs1: b, imm: 1 }.uses_regs(), vec![a, b]);
    assert_eq!(Instr::Bgt { rs3: a, rs1: b, imm: 1 }.uses_regs(), vec![a, b]);
    assert_eq!(Instr::Jmpr { rs3: a, offset: 1 }.uses_regs(), vec![a]);
    assert_eq!(Instr::Call { rs3: a, offset: 1 }.uses_regs(), vec![Register::R14]);
    assert_eq!(Instr::Ret {}.uses_regs(), vec![Register::R14]);
    assert_eq!(Instr::Lui { rs3: a, imm: 1 }.uses_regs(), vec![]);
    assert_eq!(Instr::Int0 {}.uses_regs(), vec![]);
    assert_eq!(Instr::Nop.uses_regs(), vec![]);
    assert_eq!(Instr::Empty.uses_regs(), vec![]);
    assert_eq!(Instr::Invalid.uses_regs(), vec![]);
}

#[test]
fn classes_of_operations() {
    assert!(InstrCode::Mul.is_alu());
    assert!(!InstrCode::Addi.is_alu());
    assert!(InstrCode::Andi.is_alu_imm());
    assert!(!InstrCode::Lui.is_alu_imm());
    assert!(InstrCode::Ldh.is_load());
    assert!(InstrCode::Stb.is_store());
    assert!(InstrCode::Blt.is_branch());
    assert!(!InstrCode::Jmpr.is_branch());
    assert!(InstrCode::St.has_imm_format());
    assert!(!InstrCode::Lui.has_imm_format());
    assert_eq!(InstrCode::Ldb.width(), 1);
    assert_eq!(InstrCode::Sth.width(), 2);
    assert_eq!(InstrCode::Ld.width(), 4);
    assert_eq!(InstrCode::Add.width(), 0);
}

#[test]
fn fields_of_an_instruction() {
    let instr = Instr::Bne { rs3: Register::R3, rs1: Register::R1, imm: -8 };
    assert_eq!(instr.rs3(), Register::R3);
    assert_eq!(instr.rs1(), Register::R1);
    assert_eq!(instr.rs2(), Register::NoReg);
    assert_eq!(instr.imm(), -8);
    assert_eq!(instr.offset(), 0);
    let jump = Instr::Jmpr { rs3: Register::R2, offset: 64 };
    assert_eq!(jump.rs3(), Register::R2);
    assert_eq!(jump.rs1(), Register::NoReg);
    assert_eq!(jump.offset(), 64);
    assert_eq!(jump.imm(), 0);
}
