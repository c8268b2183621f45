//! Instructions as text, as a disassembly shows them.

use vstd::prelude::*;
use vstd::string::{is_ascii, is_ascii_spec_bytes};
use vstd::utf8::encode_utf8;
use crate::assembler::lit;
use crate::backing::{signed_abs, text_of};
use crate::cpu::{Instr, InstrCode, Register};

verus! {

/// The lower-case hexadecimal digit of a number below 16.
pub open spec fn hex_char(d: nat) -> u8 {
    if d < 10 {
        (0x30 + d) as u8
    } else {
        (0x57 + d) as u8
    }
}

/// A number in hexadecimal notation, without leading zeros.
pub open spec fn hex_text(x: nat) -> Seq<u8>
    decreases x,
{
    if x < 16 {
        seq![hex_char(x)]
    } else {
        hex_text(x / 16).push(hex_char(x % 16))
    }
}

/// A number in hexadecimal notation behind `0x`, with its sign in front
/// where it is negative: `-0x20`.
pub open spec fn signed_hex(v: i32) -> Seq<u8> {
    if v < 0 {
        lit("-0x") + hex_text((-v) as nat)
    } else {
        lit("0x") + hex_text(v as nat)
    }
}

/// The 32 bits of a number in hexadecimal notation behind `0x`: `0xffffffe0`.
pub open spec fn bits_hex(v: i32) -> Seq<u8> {
    lit("0x") + hex_text((v as u32) as nat)
}

/// The name of a register: `r` and its number in decimal notation.
pub open spec fn register_text(reg: Register) -> Seq<u8> {
    let n = reg.number();
    if n < 10 {
        seq![0x72u8, (0x30 + n) as u8]
    } else {
        seq![0x72u8, 0x31u8, (0x30 + n - 10) as u8]
    }
}

/// The word that a disassembly shows for an operation.
pub open spec fn code_text(c: InstrCode) -> Seq<u8> {
    match c {
        InstrCode::Add => lit("add"),
        InstrCode::Sub => lit("sub"),
        InstrCode::Xor => lit("xor"),
        InstrCode::Or => lit("or"),
        InstrCode::And => lit("and"),
        InstrCode::Shr => lit("shr"),
        InstrCode::Shl => lit("shl"),
        InstrCode::Mul => lit("mul"),
        InstrCode::Div => lit("div"),
        InstrCode::Addi => lit("addi"),
        InstrCode::Subi => lit("subi"),
        InstrCode::Xori => lit("xori"),
        InstrCode::Ori => lit("ori"),
        InstrCode::Andi => lit("andi"),
        InstrCode::Lui => lit("Lui"),
        InstrCode::Ldb => lit("ldb"),
        InstrCode::Ldh => lit("ldh"),
        InstrCode::Ld => lit("ld"),
        InstrCode::Stb => lit("stb"),
        InstrCode::Sth => lit("sth"),
        InstrCode::St => lit("st"),
        InstrCode::Bne => lit("bne"),
        InstrCode::Beq => lit("beq"),
        InstrCode::Blt => lit("blt"),
        InstrCode::Bgt => lit("bgt"),
        InstrCode::Jmpr => lit("jmpr"),
        InstrCode::Call => lit("Call"),
        InstrCode::Ret => lit("Ret"),
        InstrCode::Nop => lit("Nop"),
        InstrCode::Int0 => lit("Int0"),
    }
}

/// The text that a disassembly shows for an instruction. An empty slot
/// shows as nothing, a word that encodes no instruction as `<invld>`.
pub open spec fn instr_text(instr: Instr) -> Seq<u8> {
    let space = seq![0x20u8];
    match instr.code() {
        None => if instr == Instr::Invalid {
            lit("<invld>")
        } else {
            Seq::empty()
        },
        Some(c) => if c.is_alu() {
            code_text(c) + space + register_text(instr.rs3()) + space + register_text(
                instr.rs1(),
            ) + space + register_text(instr.rs2())
        } else if c.has_imm_format() {
            code_text(c) + space + register_text(instr.rs3()) + space + register_text(
                instr.rs1(),
            ) + space + signed_hex(instr.imm())
        } else if c == InstrCode::Jmpr {
            code_text(c) + space + register_text(instr.rs3()) + space + signed_hex(instr.offset())
        } else if c == InstrCode::Lui {
            code_text(c) + space + register_text(instr.rs3()) + space + bits_hex(instr.imm())
        } else if c == InstrCode::Call {
            code_text(c) + space + bits_hex(instr.offset())
        } else {
            code_text(c)
        },
    }
}

/// An instruction that a disassembly can show: the registers that its text
/// names exist, and its immediate has an absolute value.
pub open spec fn showable(instr: Instr) -> bool {
    instr.operands_exist() && instr.imm() > i32::MIN && instr.offset() > i32::MIN
}

/// The word that a disassembly shows for an operation
pub fn code_name(c: InstrCode) -> (name: &'static str)
    ensures
        lit(name) == code_text(c),
        is_ascii(name),
{
    proof {
        reveal_strlit("add");
        reveal_strlit("sub");
        reveal_strlit("xor");
        reveal_strlit("or");
        reveal_strlit("and");
        reveal_strlit("shr");
        reveal_strlit("shl");
        reveal_strlit("mul");
        reveal_strlit("div");
        reveal_strlit("addi");
        reveal_strlit("subi");
        reveal_strlit("xori");
        reveal_strlit("ori");
        reveal_strlit("andi");
        reveal_strlit("Lui");
        reveal_strlit("ldb");
        reveal_strlit("ldh");
        reveal_strlit("ld");
        reveal_strlit("stb");
        reveal_strlit("sth");
        reveal_strlit("st");
        reveal_strlit("bne");
        reveal_strlit("beq");
        reveal_strlit("blt");
        reveal_strlit("bgt");
        reveal_strlit("jmpr");
        reveal_strlit("Call");
        reveal_strlit("Ret");
        reveal_strlit("Nop");
        reveal_strlit("Int0");
    }
    match c {
        InstrCode::Add => "add",
        InstrCode::Sub => "sub",
        InstrCode::Xor => "xor",
        InstrCode::Or => "or",
        InstrCode::And => "and",
        InstrCode::Shr => "shr",
        InstrCode::Shl => "shl",
        InstrCode::Mul => "mul",
        InstrCode::Div => "div",
        InstrCode::Addi => "addi",
        InstrCode::Subi => "subi",
        InstrCode::Xori => "xori",
        InstrCode::Ori => "ori",
        InstrCode::Andi => "andi",
        InstrCode::Lui => "Lui",
        InstrCode::Ldb => "ldb",
        InstrCode::Ldh => "ldh",
        InstrCode::Ld => "ld",
        InstrCode::Stb => "stb",
        InstrCode::Sth => "sth",
        InstrCode::St => "st",
        InstrCode::Bne => "bne",
        InstrCode::Beq => "beq",
        InstrCode::Blt => "blt",
        InstrCode::Bgt => "bgt",
        InstrCode::Jmpr => "jmpr",
        InstrCode::Call => "Call",
        InstrCode::Ret => "Ret",
        InstrCode::Nop => "Nop",
        InstrCode::Int0 => "Int0",
    }
}

/// Every byte is an ASCII character.
pub open spec fn ascii(s: Seq<u8>) -> bool {
    forall|i: int| 0 <= i < s.len() ==> s[i] < 0x80
}

/// Append the bytes of `text` to `out`
fn push_text(out: &mut Vec<u8>, text: &str)
    ensures
        final(out)@ == old(out)@ + lit(text),
        ascii(old(out)@) && is_ascii(text) ==> ascii(final(out)@),
{
    proof {
        is_ascii_spec_bytes(text);
    }
    let bytes = text.as_bytes();
    let mut i: usize = 0;
    assert(bytes@.take(0) =~= Seq::<u8>::empty());
    assert(out@ =~= old(out)@ + bytes@.take(0));
    while i < bytes.len()
        invariant
            i <= bytes@.len(),
            bytes@ == lit(text),
            out@ == old(out)@ + bytes@.take(i as int),
        decreases bytes@.len() - i,
    {
        out.push(bytes[i]);
        i += 1;
        assert(out@ =~= old(out)@ + bytes@.take(i as int));
    }
    assert(bytes@.take(bytes@.len() as int) =~= bytes@);
}

/// Append `x` in hexadecimal notation to `out`
fn push_hex(out: &mut Vec<u8>, x: u32)
    ensures
        final(out)@ == old(out)@ + hex_text(x as nat),
        ascii(old(out)@) ==> ascii(final(out)@),
    decreases x,
{
    if x >= 16 {
        push_hex(out, x / 16);
    }
    let d = (x % 16) as u8;
    let c = if d < 10 {
        0x30 + d
    } else {
        0x57 + d
    };
    out.push(c);
    assert(out@ =~= old(out)@ + hex_text(x as nat));
}

/// Append `v` in hexadecimal notation to `out`, as `-0x20` where it is negative
fn push_signed_hex(out: &mut Vec<u8>, v: i32)
    requires
        v > i32::MIN,
    ensures
        final(out)@ == old(out)@ + signed_hex(v),
        ascii(old(out)@) ==> ascii(final(out)@),
{
    proof {
        reveal_strlit("0x");
        reveal_strlit("-0x");
    }
    let prefix = if v >= 0 {
        "0x"
    } else {
        "-0x"
    };
    push_text(out, prefix);
    push_hex(out, signed_abs(v) as u32);
    assert(out@ =~= old(out)@ + signed_hex(v));
}

/// Append the 32 bits of `v` in hexadecimal notation to `out`
fn push_bits_hex(out: &mut Vec<u8>, v: i32)
    ensures
        final(out)@ == old(out)@ + bits_hex(v),
        ascii(old(out)@) ==> ascii(final(out)@),
{
    proof {
        reveal_strlit("0x");
    }
    push_text(out, "0x");
    push_hex(out, #[verifier::truncate] (v as u32));
    assert(out@ =~= old(out)@ + bits_hex(v));
}

/// Append the name of a register to `out`
fn push_register(out: &mut Vec<u8>, reg: Register)
    requires
        reg.is_real(),
    ensures
        final(out)@ == old(out)@ + register_text(reg),
        ascii(old(out)@) ==> ascii(final(out)@),
{
    let n = reg.index() as u8;
    out.push(0x72);
    if n < 10 {
        out.push(0x30 + n);
    } else {
        out.push(0x31);
        out.push(0x30 + n - 10);
    }
    assert(out@ =~= old(out)@ + register_text(reg));
}

/// The string that holds the given ASCII characters
fn text_from_ascii(bytes: Vec<u8>) -> (text: String)
    requires
        ascii(bytes@),
    ensures
        encode_utf8(text@) == bytes@,
{
    match text_of(bytes) {
        Ok(text) => text,
        Err(_) => String::new(),
    }
}

impl Register {
    /// The name of the register, as a disassembly shows it
    pub fn to_text(&self) -> (text: String)
        requires
            self.is_real(),
        ensures
            encode_utf8(text@) == register_text(*self),
    {
        let mut out: Vec<u8> = Vec::new();
        push_register(&mut out, *self);
        assert(out@ =~= register_text(*self));
        text_from_ascii(out)
    }
}

impl Instr {
    /// The bytes of the text that a disassembly shows for the instruction
    pub fn to_bytes(&self) -> (out: Vec<u8>)
        requires
            showable(*self),
        ensures
            out@ == instr_text(*self),
            ascii(out@),
    {
        proof {
            reveal_strlit("<invld>");
        }
        let mut out: Vec<u8> = Vec::new();
        let code = match self.code() {
            Some(code) => code,
            None => {
                if *self == Instr::Invalid {
                    push_text(&mut out, "<invld>");
                }
                assert(out@ =~= instr_text(*self));
                return out;
            },
        };
        push_text(&mut out, code_name(code));
        if code.is_alu() {
            out.push(0x20);
            push_register(&mut out, self.rs3());
            out.push(0x20);
            push_register(&mut out, self.rs1());
            out.push(0x20);
            push_register(&mut out, self.rs2());
        } else if code.has_imm_format() {
            out.push(0x20);
            push_register(&mut out, self.rs3());
            out.push(0x20);
            push_register(&mut out, self.rs1());
            out.push(0x20);
            push_signed_hex(&mut out, self.imm());
        } else if code == InstrCode::Jmpr {
            out.push(0x20);
            push_register(&mut out, self.rs3());
            out.push(0x20);
            push_signed_hex(&mut out, self.offset());
        } else if code == InstrCode::Lui {
            out.push(0x20);
            push_register(&mut out, self.rs3());
            out.push(0x20);
            push_bits_hex(&mut out, self.imm());
        } else if code == InstrCode::Call {
            out.push(0x20);
            push_bits_hex(&mut out, self.offset());
        }
        assert(out@ =~= instr_text(*self));
        out
    }

    /// The text that a disassembly shows for the instruction
    pub fn to_text(&self) -> (text: String)
        requires
            showable(*self),
        ensures
            encode_utf8(text@) == instr_text(*self),
    {
        text_from_ascii(self.to_bytes())
    }
}

} // verus!
