//! The assembler: source text to instruction words.
//!
//! A source is a sequence of lines. Blank lines and lines that begin with
//! `#` are ignored. A line is cut into words at every single space. A
//! section begins with `.load 0xHEX` and the line of its name, and ends with
//! `.end_section`. Between them stand labels, which begin with `.`, and
//! instructions. The address of a label counts four bytes for every line
//! before it; the address of an instruction counts the instructions alone.

use vstd::prelude::*;
use vstd::string::StringSliceAdditionalSpecFns;
use rustc_hash::FxHashMap;
use crate::backing::{label_entries, labels_get, labels_insert, labels_new};
use crate::cpu::{instr_of, sign_extend, Instr, InstrCode, Register};
use crate::backing::random_u32;
use crate::machine::Machine;
use crate::mmu::{aligned, lemma_page_offset, page_offset, Perms, VAddr, PAGE_SIZE};
use crate::simulator::{SimErr, Simulator};
use crate::{le_bytes, le_seq};

verus! {

/// The bytes of a string.
pub open spec fn lit(s: &str) -> Seq<u8> {
    s.spec_bytes()
}

/// The bytes of each vector.
pub open spec fn views(v: Seq<Vec<u8>>) -> Seq<Seq<u8>> {
    v.map_values(|t: Vec<u8>| t@)
}

/// Space, tab, line feed, vertical tab, form feed and carriage return.
pub open spec fn is_space(b: u8) -> bool {
    b == 0x20 || (0x09 <= b <= 0x0d)
}

/// The parts of `s` between the occurrences of `sep`. There is one part more
/// than there are occurrences; a part may be empty.
pub open spec fn split(s: Seq<u8>, sep: u8) -> Seq<Seq<u8>>
    decreases s.len(),
{
    if s.len() == 0 {
        seq![Seq::<u8>::empty()]
    } else {
        let init = split(s.drop_last(), sep);
        if s.last() == sep {
            init.push(Seq::<u8>::empty())
        } else {
            init.drop_last().push(init.last().push(s.last()))
        }
    }
}

/// `s` without the white space at its start.
pub open spec fn trim_start(s: Seq<u8>) -> Seq<u8>
    decreases s.len(),
{
    if s.len() > 0 && is_space(s[0]) {
        trim_start(s.drop_first())
    } else {
        s
    }
}

/// `s` without the white space at its end.
pub open spec fn trim_end(s: Seq<u8>) -> Seq<u8>
    decreases s.len(),
{
    if s.len() > 0 && is_space(s.last()) {
        trim_end(s.drop_last())
    } else {
        s
    }
}

/// `s` without the white space at its start and at its end.
pub open spec fn trimmed(s: Seq<u8>) -> Seq<u8> {
    trim_end(trim_start(s))
}

/// A line that is neither blank nor a comment.
pub open spec fn kept(line: Seq<u8>) -> bool {
    line.len() > 0 && line[0] != 0x23
}

/// The lines of `raw`, trimmed, without the blank ones and the comments.
pub open spec fn program_lines(raw: Seq<Seq<u8>>) -> Seq<Seq<u8>>
    decreases raw.len(),
{
    if raw.len() == 0 {
        Seq::empty()
    } else {
        let init = program_lines(raw.drop_last());
        let line = trimmed(raw.last());
        if kept(line) {
            init.push(line)
        } else {
            init
        }
    }
}

/// The lines of a source that count.
pub open spec fn source_lines(input: Seq<u8>) -> Seq<Seq<u8>> {
    program_lines(split(input, 0x0a))
}

/// A split has at least one part.
pub proof fn lemma_split_len(s: Seq<u8>, sep: u8)
    ensures
        split(s, sep).len() >= 1,
    decreases s.len(),
{
    if s.len() > 0 {
        lemma_split_len(s.drop_last(), sep);
    }
}

/// Whether `b` is white space
pub fn is_space_byte(b: u8) -> (r: bool)
    ensures
        r == is_space(b),
{
    b == 0x20 || (0x09 <= b && b <= 0x0d)
}

/// Cut `s` at every `sep`
pub fn split_bytes(s: &[u8], sep: u8) -> (parts: Vec<Vec<u8>>)
    ensures
        views(parts@) == split(s@, sep),
        parts@.len() >= 1,
{
    let mut parts: Vec<Vec<u8>> = Vec::new();
    let mut cur: Vec<u8> = Vec::new();
    let mut i: usize = 0;
    assert(s@.take(0) =~= Seq::<u8>::empty());
    assert(views(parts@).push(cur@) =~= split(s@.take(0), sep));
    while i < s.len()
        invariant
            i <= s.len(),
            views(parts@).push(cur@) == split(s@.take(i as int), sep),
        decreases s.len() - i,
    {
        let ghost init = split(s@.take(i as int), sep);
        let ghost before = views(parts@);
        proof {
            assert(s@.take(i + 1).drop_last() =~= s@.take(i as int));
            assert(init.last() == cur@);
            assert(init.drop_last() =~= before);
        }
        if s[i] == sep {
            parts.push(cur);
            cur = Vec::new();
            proof {
                assert(views(parts@) =~= init);
            }
        } else {
            cur.push(s[i]);
            proof {
                assert(views(parts@) =~= before);
            }
        }
        i += 1;
        proof {
            assert(views(parts@).push(cur@) =~= split(s@.take(i as int), sep));
        }
    }
    proof {
        assert(s@.take(s@.len() as int) =~= s@);
    }
    let ghost before = views(parts@);
    parts.push(cur);
    proof {
        assert(views(parts@) =~= before.push(cur@));
    }
    parts
}

/// The bytes of `s` from `lo` up to `hi`
pub fn copy_range(s: &[u8], lo: usize, hi: usize) -> (t: Vec<u8>)
    requires
        lo <= hi <= s@.len(),
    ensures
        t@ == s@.subrange(lo as int, hi as int),
{
    let mut t: Vec<u8> = Vec::new();
    let mut i: usize = lo;
    while i < hi
        invariant
            lo <= i <= hi <= s@.len(),
            t@ == s@.subrange(lo as int, i as int),
        decreases hi - i,
    {
        t.push(s[i]);
        i += 1;
        assert(t@ =~= s@.subrange(lo as int, i as int));
    }
    t
}

/// Remove the white space at the start and at the end of `s`
pub fn trim(s: &[u8]) -> (t: Vec<u8>)
    ensures
        t@ == trimmed(s@),
{
    let mut lo: usize = 0;
    assert(s@.skip(0) =~= s@);
    while lo < s.len() && is_space_byte(s[lo])
        invariant
            lo <= s@.len(),
            trim_start(s@) == trim_start(s@.skip(lo as int)),
        decreases s@.len() - lo,
    {
        proof {
            assert(s@.skip(lo as int).drop_first() =~= s@.skip(lo + 1));
        }
        lo += 1;
    }
    assert(trim_start(s@) == s@.skip(lo as int));
    let mut hi: usize = s.len();
    assert(s@.subrange(lo as int, hi as int) =~= s@.skip(lo as int));
    while hi > lo && is_space_byte(s[hi - 1])
        invariant
            lo <= hi <= s@.len(),
            trimmed(s@) == trim_end(s@.subrange(lo as int, hi as int)),
        decreases hi,
    {
        proof {
            assert(s@.subrange(lo as int, hi as int).drop_last() =~= s@.subrange(
                lo as int,
                hi - 1,
            ));
        }
        hi -= 1;
    }
    copy_range(s, lo, hi)
}

/// Split the source into lines, remove whitespace, and filter out blank lines and comments
pub fn read_lines(input: &[u8]) -> (lines: Vec<Vec<u8>>)
    ensures
        views(lines@) == source_lines(input@),
{
    let raw = split_bytes(input, 0x0a);
    let mut lines: Vec<Vec<u8>> = Vec::new();
    let mut i: usize = 0;
    assert(views(raw@).take(0) =~= Seq::<Seq<u8>>::empty());
    assert(views(lines@) =~= program_lines(views(raw@).take(0)));
    while i < raw.len()
        invariant
            i <= raw.len(),
            views(lines@) == program_lines(views(raw@).take(i as int)),
        decreases raw.len() - i,
    {
        let line = trim(raw[i].as_slice());
        let ghost before = views(lines@);
        proof {
            assert(views(raw@).take(i + 1).drop_last() =~= views(raw@).take(i as int));
            assert(views(raw@).take(i + 1).last() == raw@[i as int]@);
        }
        if line.len() > 0 && line[0] != 0x23 {
            lines.push(line);
            proof {
                assert(views(lines@) =~= before.push(line@));
            }
        }
        i += 1;
    }
    proof {
        assert(views(raw@).take(raw@.len() as int) =~= views(raw@));
    }
    lines
}

/// Whether the bytes of `word` are those of `text`
pub fn token_is(word: &[u8], text: &str) -> (b: bool)
    ensures
        b == (word@ == lit(text)),
{
    let bytes = text.as_bytes();
    if word.len() != bytes.len() {
        return false;
    }
    let mut i: usize = 0;
    while i < word.len()
        invariant
            i <= word@.len(),
            word@.len() == bytes@.len(),
            bytes@ == lit(text),
            forall|j: int| 0 <= j < i ==> word@[j] == bytes@[j],
        decreases word@.len() - i,
    {
        if word[i] != bytes[i] {
            return false;
        }
        i += 1;
    }
    assert(word@ =~= bytes@);
    true
}

/// The value of a decimal digit.
pub open spec fn is_digit(b: u8) -> bool {
    0x30 <= b <= 0x39
}

/// Every byte of `s` is a decimal digit.
pub open spec fn all_digits(s: Seq<u8>) -> bool {
    forall|i: int| 0 <= i < s.len() ==> is_digit(#[trigger] s[i])
}

/// The number that the decimal digits `s` write.
pub open spec fn decimal(s: Seq<u8>) -> nat
    decreases s.len(),
{
    if s.len() == 0 {
        0
    } else {
        decimal(s.drop_last()) * 10 + (s.last() - 0x30) as nat
    }
}

/// The register that a word names: `r` and the decimal number of a register
/// of the file.
pub open spec fn register_of(word: Seq<u8>) -> Option<Register> {
    if word.len() >= 2 && word[0] == 0x72 && all_digits(word.skip(1)) && decimal(word.skip(1))
        < 16 {
        Some(Register::of_number(decimal(word.skip(1)) as int))
    } else {
        None
    }
}

/// The value of a hexadecimal digit, of either case.
pub open spec fn hex_digit(b: u8) -> Option<nat> {
    if 0x30 <= b <= 0x39 {
        Some((b - 0x30) as nat)
    } else if 0x61 <= b <= 0x66 {
        Some((b - 0x57) as nat)
    } else if 0x41 <= b <= 0x46 {
        Some((b - 0x37) as nat)
    } else {
        None
    }
}

/// Every byte of `s` is a hexadecimal digit.
pub open spec fn all_hex(s: Seq<u8>) -> bool {
    forall|i: int| 0 <= i < s.len() ==> hex_digit(#[trigger] s[i]) is Some
}

/// The number that the hexadecimal digits `s` write.
pub open spec fn hexadecimal(s: Seq<u8>) -> nat
    decreases s.len(),
{
    if s.len() == 0 {
        0
    } else {
        hexadecimal(s.drop_last()) * 16 + hex_digit(s.last()).unwrap()
    }
}

/// The number that a word writes: `0x` and hexadecimal digits whose number
/// fits 32 bits.
pub open spec fn hex_of(word: Seq<u8>) -> Option<u32> {
    if word.len() >= 3 && word[0] == 0x30 && word[1] == 0x78 && all_hex(word.skip(2))
        && hexadecimal(word.skip(2)) <= u32::MAX {
        Some(hexadecimal(word.skip(2)) as u32)
    } else {
        None
    }
}

/// Parse the name of a register
pub fn parse_register(word: &[u8]) -> (r: Option<Register>)
    ensures
        r == register_of(word@),
{
    if word.len() < 2 || word[0] != 0x72 {
        return None;
    }
    let ghost digits = word@.skip(1);
    let mut acc: u32 = 0;
    let mut i: usize = 1;
    assert(digits.take(0) =~= Seq::<u8>::empty());
    while i < word.len()
        invariant
            1 <= i <= word@.len(),
            digits == word@.skip(1),
            all_digits(digits.take(i - 1)),
            acc <= 16,
            acc < 16 ==> acc == decimal(digits.take(i - 1)),
            acc == 16 ==> decimal(digits.take(i - 1)) >= 16,
        decreases word@.len() - i,
    {
        let b = word[i];
        proof {
            assert(digits.take(i as int).drop_last() =~= digits.take(i - 1));
            assert(digits.take(i as int).last() == b);
        }
        if !(0x30 <= b && b <= 0x39) {
            assert(!all_digits(digits)) by {
                assert(digits[i - 1] == b);
            }
            return None;
        }
        let d = (b - 0x30) as u32;
        acc = if acc >= 16 || acc * 10 + d >= 16 {
            16
        } else {
            acc * 10 + d
        };
        i += 1;
        proof {
            assert forall|j: int| 0 <= j < digits.take(i - 1).len() implies is_digit(
                #[trigger] digits.take(i - 1)[j],
            ) by {
                if j < i - 2 {
                    assert(digits.take(i - 2)[j] == digits.take(i - 1)[j]);
                }
            }
        }
    }
    proof {
        assert(digits.take(word@.len() - 1) =~= digits);
    }
    if acc < 16 {
        Some(Register::from(acc))
    } else {
        None
    }
}

/// Parse a number in hexadecimal notation
pub fn parse_hex(word: &[u8]) -> (r: Option<u32>)
    ensures
        r == hex_of(word@),
{
    if word.len() < 3 || word[0] != 0x30 || word[1] != 0x78 {
        return None;
    }
    let ghost digits = word@.skip(2);
    let mut acc: u64 = 0;
    let mut i: usize = 2;
    assert(digits.take(0) =~= Seq::<u8>::empty());
    while i < word.len()
        invariant
            2 <= i <= word@.len(),
            digits == word@.skip(2),
            all_hex(digits.take(i - 2)),
            acc <= 0x1_0000_0000,
            acc < 0x1_0000_0000 ==> acc == hexadecimal(digits.take(i - 2)),
            acc == 0x1_0000_0000 ==> hexadecimal(digits.take(i - 2)) >= 0x1_0000_0000,
        decreases word@.len() - i,
    {
        let b = word[i];
        proof {
            assert(digits.take(i - 1).drop_last() =~= digits.take(i - 2));
            assert(digits.take(i - 1).last() == b);
        }
        let d: u64 = if 0x30 <= b && b <= 0x39 {
            (b - 0x30) as u64
        } else if 0x61 <= b && b <= 0x66 {
            (b - 0x57) as u64
        } else if 0x41 <= b && b <= 0x46 {
            (b - 0x37) as u64
        } else {
            assert(!all_hex(digits)) by {
                assert(digits[i - 2] == b);
            }
            return None;
        };
        acc = if acc >= 0x1_0000_0000 || acc * 16 + d >= 0x1_0000_0000 {
            0x1_0000_0000
        } else {
            acc * 16 + d
        };
        i += 1;
        proof {
            assert forall|j: int| 0 <= j < digits.take(i - 2).len() implies hex_digit(
                #[trigger] digits.take(i - 2)[j],
            ) is Some by {
                if j < i - 3 {
                    assert(digits.take(i - 3)[j] == digits.take(i - 2)[j]);
                }
            }
        }
    }
    proof {
        assert(digits.take(word@.len() - 2) =~= digits);
    }
    if acc < 0x1_0000_0000 {
        Some(acc as u32)
    } else {
        None
    }
}

/// The operation that a mnemonic names.
pub open spec fn mnemonic_code(word: Seq<u8>) -> Option<InstrCode> {
    if word == lit("add") {
        Some(InstrCode::Add)
    } else if word == lit("sub") {
        Some(InstrCode::Sub)
    } else if word == lit("xor") {
        Some(InstrCode::Xor)
    } else if word == lit("or") {
        Some(InstrCode::Or)
    } else if word == lit("and") {
        Some(InstrCode::And)
    } else if word == lit("shr") {
        Some(InstrCode::Shr)
    } else if word == lit("shl") {
        Some(InstrCode::Shl)
    } else if word == lit("mul") {
        Some(InstrCode::Mul)
    } else if word == lit("div") {
        Some(InstrCode::Div)
    } else if word == lit("addi") {
        Some(InstrCode::Addi)
    } else if word == lit("subi") {
        Some(InstrCode::Subi)
    } else if word == lit("xori") {
        Some(InstrCode::Xori)
    } else if word == lit("ori") {
        Some(InstrCode::Ori)
    } else if word == lit("andi") {
        Some(InstrCode::Andi)
    } else if word == lit("ldb") {
        Some(InstrCode::Ldb)
    } else if word == lit("ldh") {
        Some(InstrCode::Ldh)
    } else if word == lit("ld") {
        Some(InstrCode::Ld)
    } else if word == lit("stb") {
        Some(InstrCode::Stb)
    } else if word == lit("sth") {
        Some(InstrCode::Sth)
    } else if word == lit("st") {
        Some(InstrCode::St)
    } else if word == lit("bne") {
        Some(InstrCode::Bne)
    } else if word == lit("beq") {
        Some(InstrCode::Beq)
    } else if word == lit("blt") {
        Some(InstrCode::Blt)
    } else if word == lit("bgt") {
        Some(InstrCode::Bgt)
    } else if word == lit("jmpr") {
        Some(InstrCode::Jmpr)
    } else if word == lit("lui") {
        Some(InstrCode::Lui)
    } else if word == lit("call") {
        Some(InstrCode::Call)
    } else if word == lit("ret") {
        Some(InstrCode::Ret)
    } else if word == lit("nop") {
        Some(InstrCode::Nop)
    } else if word == lit("int0") {
        Some(InstrCode::Int0)
    } else {
        None
    }
}

/// Look up the operation that a mnemonic names
pub fn parse_mnemonic(word: &[u8]) -> (r: Option<InstrCode>)
    ensures
        r == mnemonic_code(word@),
{
    if token_is(word, "add") {
        Some(InstrCode::Add)
    } else if token_is(word, "sub") {
        Some(InstrCode::Sub)
    } else if token_is(word, "xor") {
        Some(InstrCode::Xor)
    } else if token_is(word, "or") {
        Some(InstrCode::Or)
    } else if token_is(word, "and") {
        Some(InstrCode::And)
    } else if token_is(word, "shr") {
        Some(InstrCode::Shr)
    } else if token_is(word, "shl") {
        Some(InstrCode::Shl)
    } else if token_is(word, "mul") {
        Some(InstrCode::Mul)
    } else if token_is(word, "div") {
        Some(InstrCode::Div)
    } else if token_is(word, "addi") {
        Some(InstrCode::Addi)
    } else if token_is(word, "subi") {
        Some(InstrCode::Subi)
    } else if token_is(word, "xori") {
        Some(InstrCode::Xori)
    } else if token_is(word, "ori") {
        Some(InstrCode::Ori)
    } else if token_is(word, "andi") {
        Some(InstrCode::Andi)
    } else if token_is(word, "ldb") {
        Some(InstrCode::Ldb)
    } else if token_is(word, "ldh") {
        Some(InstrCode::Ldh)
    } else if token_is(word, "ld") {
        Some(InstrCode::Ld)
    } else if token_is(word, "stb") {
        Some(InstrCode::Stb)
    } else if token_is(word, "sth") {
        Some(InstrCode::Sth)
    } else if token_is(word, "st") {
        Some(InstrCode::St)
    } else if token_is(word, "bne") {
        Some(InstrCode::Bne)
    } else if token_is(word, "beq") {
        Some(InstrCode::Beq)
    } else if token_is(word, "blt") {
        Some(InstrCode::Blt)
    } else if token_is(word, "bgt") {
        Some(InstrCode::Bgt)
    } else if token_is(word, "jmpr") {
        Some(InstrCode::Jmpr)
    } else if token_is(word, "lui") {
        Some(InstrCode::Lui)
    } else if token_is(word, "call") {
        Some(InstrCode::Call)
    } else if token_is(word, "ret") {
        Some(InstrCode::Ret)
    } else if token_is(word, "nop") {
        Some(InstrCode::Nop)
    } else if token_is(word, "int0") {
        Some(InstrCode::Int0)
    } else {
        None
    }
}

/// The instruction of a three-register line.
pub open spec fn alu_line(
    c: InstrCode,
    rs3: Option<Register>,
    rs1: Option<Register>,
    rs2: Option<Register>,
) -> Result<Instr, SimErr> {
    if rs3 is Some && rs1 is Some && rs2 is Some {
        Ok(instr_of(c, rs3->Some_0, rs1->Some_0, rs2->Some_0, 0, 0))
    } else {
        Err(SimErr::InstrDecode)
    }
}

/// The instruction of a line with two registers and a 16-bit field, of which
/// `field` gives the bits.
pub open spec fn imm_line(
    c: InstrCode,
    rs3: Option<Register>,
    rs1: Option<Register>,
    field: Option<u32>,
) -> Result<Instr, SimErr> {
    if rs3 is Some && rs1 is Some && field is Some {
        Ok(
            instr_of(
                c,
                rs3->Some_0,
                rs1->Some_0,
                Register::NoReg,
                sign_extend(field->Some_0 & 0xffff, 16),
                0,
            ),
        )
    } else {
        Err(SimErr::InstrDecode)
    }
}

/// The instruction of a line with a 21-bit field, of which `field` gives the bits.
pub open spec fn jump_line(c: InstrCode, field: Option<u32>) -> Result<Instr, SimErr> {
    if field is Some {
        Ok(
            instr_of(
                c,
                Register::R0,
                Register::NoReg,
                Register::NoReg,
                0,
                sign_extend(field->Some_0 & 0x1f_ffff, 21),
            ),
        )
    } else {
        Err(SimErr::InstrDecode)
    }
}

/// The distance from `pc` to the label `word`, if `labels` holds it.
pub open spec fn distance(labels: Map<Seq<u8>, u32>, word: Seq<u8>, pc: u32) -> Option<u32> {
    if labels.contains_key(word) {
        Some(labels[word].wrapping_sub(pc))
    } else {
        None
    }
}

/// The instruction that the words of a line at address `pc` write, where
/// `labels` gives the address of each label. `mov` and `movi` stand for
/// `add` and `addi` with `r0`. Whatever is not an instruction with the
/// operands that its operation asks for is an error.
#[verifier::opaque]
pub open spec fn parsed(words: Seq<Seq<u8>>, labels: Map<Seq<u8>, u32>, pc: u32) -> Result<
    Instr,
    SimErr,
> {
    let n = words.len();
    let r0 = Some(Register::R0);
    if words[0] == lit("mov") {
        if n == 3 {
            alu_line(InstrCode::Add, register_of(words[1]), register_of(words[2]), r0)
        } else {
            Err(SimErr::InstrDecode)
        }
    } else if words[0] == lit("movi") {
        if n == 3 {
            imm_line(InstrCode::Addi, register_of(words[1]), r0, hex_of(words[2]))
        } else {
            Err(SimErr::InstrDecode)
        }
    } else {
        match mnemonic_code(words[0]) {
            None => Err(SimErr::InstrDecode),
            Some(c) => if c.is_alu() {
                if n == 4 {
                    alu_line(
                        c,
                        register_of(words[1]),
                        register_of(words[2]),
                        register_of(words[3]),
                    )
                } else {
                    Err(SimErr::InstrDecode)
                }
            } else if c.is_alu_imm() || c.is_load() || c.is_store() {
                if n == 4 {
                    imm_line(c, register_of(words[1]), register_of(words[2]), hex_of(words[3]))
                } else {
                    Err(SimErr::InstrDecode)
                }
            } else if c == InstrCode::Lui {
                if n == 3 {
                    imm_line(c, register_of(words[1]), r0, hex_of(words[2]))
                } else {
                    Err(SimErr::InstrDecode)
                }
            } else if c.is_branch() {
                if n == 4 {
                    imm_line(
                        c,
                        register_of(words[1]),
                        register_of(words[2]),
                        distance(labels, words[3], pc),
                    )
                } else {
                    Err(SimErr::InstrDecode)
                }
            } else if c == InstrCode::Jmpr {
                if n == 2 {
                    jump_line(c, distance(labels, words[1], pc))
                } else {
                    Err(SimErr::InstrDecode)
                }
            } else if c == InstrCode::Call {
                if n == 2 {
                    jump_line(c, hex_of(words[1]))
                } else {
                    Err(SimErr::InstrDecode)
                }
            } else {
                if n == 1 {
                    Ok(
                        instr_of(
                            c,
                            Register::NoReg,
                            Register::NoReg,
                            Register::NoReg,
                            0,
                            0,
                        ),
                    )
                } else {
                    Err(SimErr::InstrDecode)
                }
            },
        }
    }
}

/// The word that a line at address `pc` assembles to.
pub open spec fn assembled(line: Seq<u8>, labels: Map<Seq<u8>, u32>, pc: u32) -> Result<
    u32,
    SimErr,
> {
    match parsed(split(line, 0x20), labels, pc) {
        Ok(instr) => Ok(instr.spec_encode()),
        Err(e) => Err(e),
    }
}

proof fn lemma_field_ranges(v: u32)
    by (bit_vector)
    ensures
        -0x8000 <= sign_extend(v & 0xffff, 16) < 0x8000,
        -0x10_0000 <= sign_extend(v & 0x1f_ffff, 21) < 0x10_0000,
{
}

/// The register that a word names is a register of the file.
pub proof fn lemma_register_real(word: Seq<u8>)
    ensures
        register_of(word) is Some ==> register_of(word)->Some_0.is_real(),
{
}

proof fn lemma_alu_line(
    c: InstrCode,
    rs3: Option<Register>,
    rs1: Option<Register>,
    rs2: Option<Register>,
)
    requires
        c.is_alu(),
        alu_line(c, rs3, rs1, rs2) is Ok,
        rs3->Some_0.is_real(),
        rs1->Some_0.is_real(),
        rs2->Some_0.is_real(),
    ensures
        alu_line(c, rs3, rs1, rs2)->Ok_0.well_formed(),
{
}

proof fn lemma_imm_line(
    c: InstrCode,
    rs3: Option<Register>,
    rs1: Option<Register>,
    field: Option<u32>,
)
    requires
        c.has_imm_format() || c == InstrCode::Lui,
        imm_line(c, rs3, rs1, field) is Ok,
        rs3->Some_0.is_real(),
        rs1->Some_0.is_real(),
    ensures
        imm_line(c, rs3, rs1, field)->Ok_0.well_formed(),
{
    lemma_field_ranges(field->Some_0);
}

proof fn lemma_jump_line(c: InstrCode, field: Option<u32>)
    requires
        c == InstrCode::Jmpr || c == InstrCode::Call,
        jump_line(c, field) is Ok,
    ensures
        jump_line(c, field)->Ok_0.well_formed(),
{
    lemma_field_ranges(field->Some_0);
}

/// What `parsed` yields is an instruction that has an encoding.
pub proof fn lemma_parsed_well_formed(words: Seq<Seq<u8>>, labels: Map<Seq<u8>, u32>, pc: u32)
    requires
        parsed(words, labels, pc) is Ok,
    ensures
        parsed(words, labels, pc)->Ok_0.well_formed(),
{
    reveal(parsed);
    let r0 = Some(Register::R0);
    let n = words.len();
    if n > 1 {
        lemma_register_real(words[1]);
    }
    if n > 2 {
        lemma_register_real(words[2]);
    }
    if n > 3 {
        lemma_register_real(words[3]);
    }
    if words[0] == lit("mov") {
        lemma_alu_line(InstrCode::Add, register_of(words[1]), register_of(words[2]), r0);
    } else if words[0] == lit("movi") {
        lemma_imm_line(InstrCode::Addi, register_of(words[1]), r0, hex_of(words[2]));
    } else {
        let c = mnemonic_code(words[0])->Some_0;
        if c.is_alu() {
            lemma_alu_line(
                c,
                register_of(words[1]),
                register_of(words[2]),
                register_of(words[3]),
            );
        } else if c.is_alu_imm() || c.is_load() || c.is_store() {
            lemma_imm_line(c, register_of(words[1]), register_of(words[2]), hex_of(words[3]));
        } else if c == InstrCode::Lui {
            lemma_imm_line(c, register_of(words[1]), r0, hex_of(words[2]));
        } else if c.is_branch() {
            lemma_imm_line(
                c,
                register_of(words[1]),
                register_of(words[2]),
                distance(labels, words[3], pc),
            );
        } else if c == InstrCode::Jmpr {
            lemma_jump_line(c, distance(labels, words[1], pc));
        } else if c == InstrCode::Call {
            lemma_jump_line(c, hex_of(words[1]));
        }
    }
}

/// Build the instruction of a three-register line
fn make_alu(c: InstrCode, rs3: Option<Register>, rs1: Option<Register>, rs2: Option<Register>) -> (r:
    Result<Instr, SimErr>)
    requires
        c.is_alu(),
    ensures
        r == alu_line(c, rs3, rs1, rs2),
{
    match (rs3, rs1, rs2) {
        (Some(rs3), Some(rs1), Some(rs2)) => Ok(
            match c {
                InstrCode::Add => Instr::Add { rs3, rs1, rs2 },
                InstrCode::Sub => Instr::Sub { rs3, rs1, rs2 },
                InstrCode::Xor => Instr::Xor { rs3, rs1, rs2 },
                InstrCode::Or => Instr::Or { rs3, rs1, rs2 },
                InstrCode::And => Instr::And { rs3, rs1, rs2 },
                InstrCode::Shr => Instr::Shr { rs3, rs1, rs2 },
                InstrCode::Shl => Instr::Shl { rs3, rs1, rs2 },
                InstrCode::Mul => Instr::Mul { rs3, rs1, rs2 },
                _ => Instr::Div { rs3, rs1, rs2 },
            },
        ),
        _ => Err(SimErr::InstrDecode),
    }
}

/// Build the instruction of a line with two registers and a 16-bit field
fn make_imm(c: InstrCode, rs3: Option<Register>, rs1: Option<Register>, field: Option<u32>) -> (r:
    Result<Instr, SimErr>)
    requires
        c.has_imm_format() || c == InstrCode::Lui,
    ensures
        r == imm_line(c, rs3, rs1, field),
{
    match (rs3, rs1, field) {
        (Some(rs3), Some(rs1), Some(field)) => {
            let imm = crate::cpu::extract_imm(field);
            Ok(
                match c {
                    InstrCode::Addi => Instr::Addi { rs3, rs1, imm },
                    InstrCode::Subi => Instr::Subi { rs3, rs1, imm },
                    InstrCode::Xori => Instr::Xori { rs3, rs1, imm },
                    InstrCode::Ori => Instr::Ori { rs3, rs1, imm },
                    InstrCode::Andi => Instr::Andi { rs3, rs1, imm },
                    InstrCode::Ldb => Instr::Ldb { rs3, rs1, imm },
                    InstrCode::Ldh => Instr::Ldh { rs3, rs1, imm },
                    InstrCode::Ld => Instr::Ld { rs3, rs1, imm },
                    InstrCode::Stb => Instr::Stb { rs3, rs1, imm },
                    InstrCode::Sth => Instr::Sth { rs3, rs1, imm },
                    InstrCode::St => Instr::St { rs3, rs1, imm },
                    InstrCode::Bne => Instr::Bne { rs3, rs1, imm },
                    InstrCode::Beq => Instr::Beq { rs3, rs1, imm },
                    InstrCode::Blt => Instr::Blt { rs3, rs1, imm },
                    InstrCode::Bgt => Instr::Bgt { rs3, rs1, imm },
                    _ => Instr::Lui { rs3, imm },
                },
            )
        },
        _ => Err(SimErr::InstrDecode),
    }
}

/// Build the instruction of a line with a 21-bit field
fn make_jump(c: InstrCode, field: Option<u32>) -> (r: Result<Instr, SimErr>)
    requires
        c == InstrCode::Jmpr || c == InstrCode::Call,
    ensures
        r == jump_line(c, field),
{
    match field {
        Some(field) => {
            let offset = crate::cpu::extract_offset(field);
            if c == InstrCode::Jmpr {
                Ok(Instr::Jmpr { rs3: Register::R0, offset })
            } else {
                Ok(Instr::Call { rs3: Register::R0, offset })
            }
        },
        None => Err(SimErr::InstrDecode),
    }
}

/// Calculate relative offset of a label corresponding to pc
fn label_distance(labels: &FxHashMap<Vec<u8>, u32>, word: &[u8], pc: u32) -> (r: Option<u32>)
    ensures
        r == distance(label_entries(*labels), word@, pc),
{
    match labels_get(labels, word) {
        Some(addr) => Some(addr.wrapping_sub(pc)),
        None => None,
    }
}

/// Parse the words of a line at address `pc` into an instruction
pub fn parse_instr(words: &Vec<Vec<u8>>, labels: &FxHashMap<Vec<u8>, u32>, pc: u32) -> (r: Result<
    Instr,
    SimErr,
>)
    requires
        words@.len() >= 1,
    ensures
        r == parsed(views(words@), label_entries(*labels), pc),
        r is Ok ==> r->Ok_0.well_formed(),
{
    let n = words.len();
    let operation = words[0].as_slice();
    let r0 = Some(Register::R0);
    proof {
        reveal(parsed);
        assert forall|i: int| 0 <= i < n implies views(words@)[i] == (#[trigger] words@[i])@ by {}
        if parsed(views(words@), label_entries(*labels), pc) is Ok {
            lemma_parsed_well_formed(views(words@), label_entries(*labels), pc);
        }
    }
    if token_is(operation, "mov") {
        // mov is an alias to `add rs3, rs1, rs2` where rs2 is the zero register
        if n != 3 {
            return Err(SimErr::InstrDecode);
        }
        return make_alu(
            InstrCode::Add,
            parse_register(words[1].as_slice()),
            parse_register(words[2].as_slice()),
            r0,
        );
    }
    if token_is(operation, "movi") {
        // movi is an alias to `addi rs3, rs1, imm` where rs1 is the zero register
        if n != 3 {
            return Err(SimErr::InstrDecode);
        }
        return make_imm(
            InstrCode::Addi,
            parse_register(words[1].as_slice()),
            r0,
            parse_hex(words[2].as_slice()),
        );
    }
    let c = match parse_mnemonic(operation) {
        Some(c) => c,
        None => {
            return Err(SimErr::InstrDecode);
        },
    };
    if c.is_alu() {
        // r-type
        // Verify that corrct number of arguments were supplied
        if n != 4 {
            return Err(SimErr::InstrDecode);
        }
        // Parse out registers from instruction

        make_alu(
            c,
            parse_register(words[1].as_slice()),
            parse_register(words[2].as_slice()),
            parse_register(words[3].as_slice()),
        )
    } else if c.is_alu_imm() || c.is_load() || c.is_store() {
        // G-Type
        if n != 4 {
            return Err(SimErr::InstrDecode);
        }
        make_imm(
            c,
            parse_register(words[1].as_slice()),
            parse_register(words[2].as_slice()),
            parse_hex(words[3].as_slice()),
        )
    } else if c == InstrCode::Lui {
        if n != 3 {
            return Err(SimErr::InstrDecode);
        }
        make_imm(c, parse_register(words[1].as_slice()), r0, parse_hex(words[2].as_slice()))
    } else if c.is_branch() {
        if n != 4 {
            return Err(SimErr::InstrDecode);
        }
        make_imm(
            c,
            parse_register(words[1].as_slice()),
            parse_register(words[2].as_slice()),
            label_distance(labels, words[3].as_slice(), pc),
        )
    } else if c == InstrCode::Jmpr {
        // j-Type
        if n != 2 {
            return Err(SimErr::InstrDecode);
        }
        make_jump(c, label_distance(labels, words[1].as_slice(), pc))
    } else if c == InstrCode::Call {
        if n != 2 {
            return Err(SimErr::InstrDecode);
        }
        make_jump(c, parse_hex(words[1].as_slice()))
    } else {
        if n != 1 {
            return Err(SimErr::InstrDecode);
        }
        if c == InstrCode::Ret {
            Ok(Instr::Ret {  })
        } else if c == InstrCode::Nop {
            Ok(Instr::Nop)
        } else {
            Ok(Instr::Int0 {  })
        }
    }
}

/// Assemble instruction from string-representation to its 32-bit assembled version
pub fn assemble_instr(instr_str: &str, labels: &FxHashMap<Vec<u8>, u32>, pc: u32) -> (r: Result<
    u32,
    SimErr,
>)
    ensures
        r == assembled(lit(instr_str), label_entries(*labels), pc),
{
    assemble_line(instr_str.as_bytes(), labels, pc)
}

/// Assemble the bytes of a line to a 32-bit word
pub fn assemble_line(line: &[u8], labels: &FxHashMap<Vec<u8>, u32>, pc: u32) -> (r: Result<
    u32,
    SimErr,
>)
    ensures
        r == assembled(line@, label_entries(*labels), pc),
{
    let words = split_bytes(line, 0x20);
    match parse_instr(&words, labels, pc) {
        Ok(instr) => Ok(instr.encode()),
        Err(e) => Err(e),
    }
}


/// A section of a source: its name, the address that it is loaded at, and
/// its lines between the name and `.end_section`.
#[derive(Debug)]
pub struct Section {
    pub name: Vec<u8>,
    pub load_addr: u32,
    pub lines: Vec<Vec<u8>>,
}

/// A section as mathematical values.
pub struct SectionView {
    pub name: Seq<u8>,
    pub load_addr: u32,
    pub lines: Seq<Seq<u8>>,
}

impl View for Section {
    type V = SectionView;

    open spec fn view(&self) -> SectionView {
        SectionView { name: self.name@, load_addr: self.load_addr, lines: views(self.lines@) }
    }
}

/// The sections as mathematical values.
pub open spec fn section_views(v: Seq<Section>) -> Seq<SectionView> {
    v.map_values(|s: Section| s@)
}

/// The address that the line `.load 0xHEX` gives; `None` for another line.
pub open spec fn header_addr(line: Seq<u8>) -> Option<u32> {
    let words = split(line, 0x20);
    if words.len() == 2 && words[0] == lit(".load") {
        hex_of(words[1])
    } else {
        None
    }
}

/// The line that ends a section.
pub open spec fn is_end(line: Seq<u8>) -> bool {
    line == lit(".end_section")
}

/// The number of lines before the first line that ends a section; `None`
/// where no line does.
pub open spec fn body_len(lines: Seq<Seq<u8>>) -> Option<int>
    decreases lines.len(),
{
    if lines.len() == 0 {
        None
    } else if is_end(lines[0]) {
        Some(0)
    } else {
        match body_len(lines.drop_first()) {
            Some(k) => Some(k + 1),
            None => None,
        }
    }
}

/// `done` and then the sections of `rest`; the error of `rest` where it is one.
pub open spec fn prepend(done: Seq<SectionView>, rest: Result<Seq<SectionView>, SimErr>) -> Result<
    Seq<SectionView>,
    SimErr,
> {
    match rest {
        Ok(more) => Ok(done + more),
        Err(e) => Err(e),
    }
}

/// The sections of a source, given its lines that count. Each section is a
/// `.load` line, the line of its name, its lines, and `.end_section`. A line
/// in the place of a `.load` line that is none, and a `.load` line at the end
/// of the source, are errors. A last section that is not ended is left out.
pub open spec fn parse_sections(lines: Seq<Seq<u8>>) -> Result<Seq<SectionView>, SimErr>
    decreases lines.len(),
{
    if lines.len() == 0 {
        Ok(Seq::empty())
    } else {
        match header_addr(lines[0]) {
            None => Err(SimErr::LoadErr),
            Some(load_addr) => if lines.len() < 2 {
                Err(SimErr::LoadErr)
            } else {
                let body = lines.skip(2);
                match body_len(body) {
                    None => Ok(Seq::empty()),
                    Some(k) => {
                        if 0 <= k < body.len() {
                            prepend(
                                seq![SectionView { name: lines[1], load_addr, lines: body.take(k) }],
                                parse_sections(body.skip(k + 1)),
                            )
                        } else {
                            Err(SimErr::LoadErr)
                        }
                    },
                }
            },
        }
    }
}

/// A line that is a label.
pub open spec fn is_label(line: Seq<u8>) -> bool {
    line.len() > 0 && line[0] == 0x2e
}

/// The address `k` words behind `base`, around the end of memory.
pub open spec fn addr_at(base: u32, k: nat) -> u32 {
    ((base + 4 * k) % 0x1_0000_0000) as u32
}

/// The address of each label of a section that is loaded at `base`. In the
/// table every line of the section takes four bytes, the labels too: a label
/// that `k` lines stand before has the address `base + 4 * k`. Of two labels
/// with the same name the later one counts.
pub open spec fn label_table(lines: Seq<Seq<u8>>, base: u32) -> Map<Seq<u8>, u32>
    decreases lines.len(),
{
    if lines.len() == 0 {
        Map::empty()
    } else {
        let table = label_table(lines.drop_last(), base);
        if is_label(lines.last()) {
            table.insert(lines.last(), addr_at(base, lines.drop_last().len()))
        } else {
            table
        }
    }
}

/// The words of the instructions of a section that is loaded at `base`, in
/// the order of the lines; the error of the first line that is no instruction.
pub open spec fn section_words(lines: Seq<Seq<u8>>, labels: Map<Seq<u8>, u32>, base: u32) -> Result<
    Seq<u32>,
    SimErr,
>
    decreases lines.len(),
{
    if lines.len() == 0 {
        Ok(Seq::empty())
    } else {
        match section_words(lines.drop_last(), labels, base) {
            Err(e) => Err(e),
            Ok(words) => if is_label(lines.last()) {
                Ok(words)
            } else {
                match assembled(lines.last(), labels, addr_at(base, words.len())) {
                    Ok(word) => Ok(words.push(word)),
                    Err(e) => Err(e),
                }
            },
        }
    }
}

/// The bytes of `words`, each word lowest byte first.
pub open spec fn words_bytes(words: Seq<u32>) -> Seq<u8>
    decreases words.len(),
{
    if words.len() == 0 {
        Seq::empty()
    } else {
        words_bytes(words.drop_last()) + le_seq(words.last(), 4)
    }
}

/// A section is loaded at a multiple of four, and its lines, at four bytes
/// each, end in the page that it begins in.
pub open spec fn section_fits(section: SectionView) -> bool {
    aligned(section.load_addr, 4) && page_offset(section.load_addr) + 4 * section.lines.len()
        <= PAGE_SIZE
}

/// Every word takes four bytes.
pub proof fn lemma_words_bytes_len(words: Seq<u32>)
    ensures
        words_bytes(words).len() == 4 * words.len(),
    decreases words.len(),
{
    if words.len() > 0 {
        lemma_words_bytes_len(words.drop_last());
    }
}

/// A section has at most as many words as it has lines.
pub proof fn lemma_section_words_len(lines: Seq<Seq<u8>>, labels: Map<Seq<u8>, u32>, base: u32)
    ensures
        section_words(lines, labels, base) is Ok ==> section_words(lines, labels, base)->Ok_0.len()
            <= lines.len(),
    decreases lines.len(),
{
    if lines.len() > 0 {
        lemma_section_words_len(lines.drop_last(), labels, base);
    }
}

impl Machine {
    /// The state after a section was loaded, where `seed` was drawn: the
    /// page of the section is mapped with every permission, the words of its
    /// instructions are stored from its address on, and execution starts at
    /// its address if its name is `._start`.
    #[verifier::opaque]
    pub open spec fn section_loaded(self, section: SectionView, seed: u32) -> (
        Machine,
        Result<(), SimErr>,
    ) {
        let base = section.load_addr;
        if !section_fits(section) {
            (self, Err(SimErr::LoadErr))
        } else {
            let (m, mapped) = self.page_mapped(
                base,
                Perms::WRITE | Perms::EXEC | Perms::READ,
                seed,
            );
            match mapped {
                Err(e) => (m, Err(e)),
                Ok(()) => match section_words(
                    section.lines,
                    label_table(section.lines, base),
                    base,
                ) {
                    Err(e) => (m, Err(e)),
                    Ok(words) => {
                        let (m, stored) = if words.len() == 0 {
                            (m, Ok(1u32))
                        } else {
                            m.store(base, words_bytes(words), seed)
                        };
                        match stored {
                            Err(e) => (m, Err(e)),
                            Ok(_) => (
                                if section.name == lit("._start") {
                                    (Machine { pc: VAddr(base), ..m }).fetching_at(VAddr(base))
                                } else {
                                    m
                                },
                                Ok(()),
                            ),
                        }
                    },
                },
            }
        }
    }

    /// The state after the sections were loaded one after the other, up to
    /// the first that failed.
    pub open spec fn sections_loaded(self, sections: Seq<SectionView>, seed: u32) -> (
        Machine,
        Result<(), SimErr>,
    )
        decreases sections.len(),
    {
        if sections.len() == 0 {
            (self, Ok(()))
        } else {
            let (m, r) = self.sections_loaded(sections.drop_last(), seed);
            match r {
                Err(e) => (m, Err(e)),
                Ok(()) => m.section_loaded(sections.last(), seed),
            }
        }
    }

    /// The state after a source was assembled and loaded, where `seed` was
    /// drawn. A source that is malformed leaves the state as it is; a
    /// section that fails leaves what was loaded before it. After a load
    /// that succeeded the cache is flushed.
    pub open spec fn program_loaded(self, input: Seq<u8>, seed: u32) -> (Machine, Result<(), SimErr>) {
        match parse_sections(source_lines(input)) {
            Err(e) => (self, Err(e)),
            Ok(sections) => {
                let (m, r) = self.sections_loaded(sections, seed);
                match r {
                    Err(e) => (m, Err(e)),
                    Ok(()) => (
                        Machine {
                            mmu: m.mmu.flushed(),
                            cur_cache_set: (0usize, 0usize),
                            ..m
                        },
                        Ok(()),
                    ),
                }
            },
        }
    }
}

/// A copy of the lines from `lo` up to `hi`
fn copy_lines(lines: &Vec<Vec<u8>>, lo: usize, hi: usize) -> (part: Vec<Vec<u8>>)
    requires
        lo <= hi <= lines@.len(),
    ensures
        views(part@) == views(lines@).subrange(lo as int, hi as int),
{
    let mut part: Vec<Vec<u8>> = Vec::new();
    let mut i: usize = lo;
    while i < hi
        invariant
            lo <= i <= hi <= lines@.len(),
            views(part@) == views(lines@).subrange(lo as int, i as int),
        decreases hi - i,
    {
        let ghost before = views(part@);
        let line = copy_range(lines[i].as_slice(), 0, lines[i].len());
        assert(line@ =~= lines@[i as int]@);
        part.push(line);
        i += 1;
        assert(views(part@) =~= before.push(line@));
        assert(views(part@) =~= views(lines@).subrange(lo as int, i as int));
    }
    part
}

/// Parse out load address of the line that begins a code section
pub fn parse_header(line: &[u8]) -> (r: Option<u32>)
    ensures
        r == header_addr(line@),
{
    let words = split_bytes(line, 0x20);
    assert(views(words@)[0] == words@[0]@);
    if words.len() == 2 && token_is(words[0].as_slice(), ".load") {
        assert(views(words@)[1] == words@[1]@);
        parse_hex(words[1].as_slice())
    } else {
        None
    }
}

/// Find the line that ends the section whose lines begin at `from`
fn find_end(lines: &Vec<Vec<u8>>, from: usize) -> (r: Option<usize>)
    requires
        from <= lines@.len(),
    ensures
        match r {
            Some(k) => body_len(views(lines@).skip(from as int)) == Some(k as int) && from + k
                < lines@.len(),
            None => body_len(views(lines@).skip(from as int)) is None,
        },
{
    let ghost body = views(lines@).skip(from as int);
    let mut i: usize = from;
    assert(body.skip(0) =~= body);
    while i < lines.len()
        invariant
            from <= i <= lines@.len(),
            body == views(lines@).skip(from as int),
            body_len(body) == match body_len(body.skip(i - from)) {
                Some(k) => Some(k + i - from),
                None => None,
            },
        decreases lines@.len() - i,
    {
        proof {
            assert(body.skip(i - from)[0] == lines@[i as int]@);
            assert(body.skip(i - from).drop_first() =~= body.skip(i + 1 - from));
        }
        if token_is(lines[i].as_slice(), ".end_section") {
            return Some(i - from);
        }
        i += 1;
    }
    proof {
        assert(body.skip(lines@.len() - from).len() == 0);
    }
    None
}

/// Iterate through lines and separate them into code-sections with different load-addresses
pub fn split_sections(lines: &Vec<Vec<u8>>) -> (r: Result<Vec<Section>, SimErr>)
    ensures
        match r {
            Ok(sections) => parse_sections(views(lines@)) == Ok::<Seq<SectionView>, SimErr>(
                section_views(sections@),
            ),
            Err(e) => parse_sections(views(lines@)) == Err::<Seq<SectionView>, SimErr>(e),
        },
{
    let mut functions: Vec<Section> = Vec::new();
    let mut counter: usize = 0;
    let ghost all = views(lines@);
    proof {
        assert(all.skip(0) =~= all);
        assert(section_views(functions@) =~= Seq::<SectionView>::empty());
        assert(Seq::<SectionView>::empty() + parse_sections(all)->Ok_0 =~= parse_sections(
            all,
        )->Ok_0);
    }
    while counter < lines.len()
        invariant
            counter <= lines@.len(),
            all == views(lines@),
            parse_sections(all) == prepend(
                section_views(functions@),
                parse_sections(all.skip(counter as int)),
            ),
        decreases lines@.len() - counter,
    {
        let ghost rest = all.skip(counter as int);
        let ghost done = section_views(functions@);
        proof {
            assert(rest[0] == lines@[counter as int]@);
        }
        // Parse out load address for this code section
        let load_addr = match parse_header(lines[counter].as_slice()) {
            Some(load_addr) => load_addr,
            None => {
                return Err(SimErr::LoadErr);
            },
        };
        if lines.len() - counter < 2 {
            return Err(SimErr::LoadErr);
        }
        let ghost body = rest.skip(2);
        proof {
            assert(rest[1] == lines@[counter + 1]@);
            assert(body =~= all.skip(counter + 2));
        }
        let len = match find_end(lines, counter + 2) {
            Some(len) => len,
            None => {
                proof {
                    assert(done + Seq::<SectionView>::empty() =~= done);
                }
                return Ok(functions);
            },
        };
        let name = copy_range(lines[counter + 1].as_slice(), 0, lines[counter + 1].len());
        assert(name@ =~= lines@[counter + 1]@);
        let tmp_lines = copy_lines(lines, counter + 2, counter + 2 + len);
        let section = Section { lines: tmp_lines, name, load_addr };
        proof {
            assert(body.take(len as int) =~= all.subrange(counter + 2, counter + 2 + len));
            assert(section@ == (SectionView {
                name: rest[1],
                load_addr,
                lines: body.take(len as int),
            }));
            assert(body.skip(len + 1) =~= all.skip(counter + 2 + len + 1));
        }
        functions.push(section);
        proof {
            assert(section_views(functions@) =~= done.push(section@));
            let tail = parse_sections(all.skip(counter + 2 + len + 1));
            if tail is Ok {
                assert(done + (seq![section@] + tail->Ok_0) =~= done.push(section@) + tail->Ok_0);
            }
        }
        counter = counter + 2 + len + 1;
    }
    proof {
        assert(all.skip(counter as int).len() == 0);
        assert(section_views(functions@) + Seq::<SectionView>::empty() =~= section_views(
            functions@,
        ));
    }
    Ok(functions)
}

/// Preprocess all labels to resolve corresponding addresses
pub fn section_labels(lines: &Vec<Vec<u8>>, load_addr: u32) -> (labels: FxHashMap<Vec<u8>, u32>)
    ensures
        label_entries(labels) == label_table(views(lines@), load_addr),
{
    let mut labels = labels_new();
    let mut cur_addr = load_addr;
    let mut i: usize = 0;
    let ghost all = views(lines@);
    proof {
        assert(all.take(0) =~= Seq::<Seq<u8>>::empty());
        assert(label_entries(labels) =~= label_table(all.take(0), load_addr));
    }
    while i < lines.len()
        invariant
            i <= lines@.len(),
            all == views(lines@),
            label_entries(labels) == label_table(all.take(i as int), load_addr),
            cur_addr == addr_at(load_addr, i as nat),
        decreases lines@.len() - i,
    {
        proof {
            assert(all.take(i + 1).drop_last() =~= all.take(i as int));
            assert(all.take(i + 1).last() == lines@[i as int]@);
        }
        let line = &lines[i];
        if line.len() > 0 && line[0] == 0x2e {
            let name = copy_range(line.as_slice(), 0, line.len());
            assert(name@ =~= line@);
            labels_insert(&mut labels, name, cur_addr);
        }
        proof {
            lemma_addr_step(load_addr, i as nat);
        }
        cur_addr = cur_addr.wrapping_add(4);
        i += 1;
    }
    proof {
        assert(all.take(lines@.len() as int) =~= all);
    }
    labels
}

/// Assemble the instructions of a section into words
pub fn assemble_section(lines: &Vec<Vec<u8>>, labels: &FxHashMap<Vec<u8>, u32>, load_addr: u32) -> (r:
    Result<Vec<u32>, SimErr>)
    ensures
        match r {
            Ok(words) => section_words(views(lines@), label_entries(*labels), load_addr) == Ok::<
                Seq<u32>,
                SimErr,
            >(words@),
            Err(e) => section_words(views(lines@), label_entries(*labels), load_addr) == Err::<
                Seq<u32>,
                SimErr,
            >(e),
        },
{
    let mut raw: Vec<u32> = Vec::new();
    let mut cur_addr = load_addr;
    let mut i: usize = 0;
    let ghost all = views(lines@);
    let ghost table = label_entries(*labels);
    proof {
        assert(all.take(0) =~= Seq::<Seq<u8>>::empty());
    }
    while i < lines.len()
        invariant
            i <= lines@.len(),
            all == views(lines@),
            table == label_entries(*labels),
            section_words(all.take(i as int), table, load_addr) == Ok::<Seq<u32>, SimErr>(raw@),
            cur_addr == addr_at(load_addr, raw@.len()),
        decreases lines@.len() - i,
    {
        proof {
            assert(all.take(i + 1).drop_last() =~= all.take(i as int));
            assert(all.take(i + 1).last() == lines@[i as int]@);
        }
        let line = &lines[i];
        if !(line.len() > 0 && line[0] == 0x2e) {
            match assemble_line(line.as_slice(), labels, cur_addr) {
                Ok(word) => {
                    raw.push(word);
                },
                Err(e) => {
                    proof {
                        lemma_section_words_error(all, table, load_addr, i + 1);
                    }
                    return Err(e);
                },
            }
            proof {
                lemma_addr_step(load_addr, (raw@.len() - 1) as nat);
            }
            cur_addr = cur_addr.wrapping_add(4);
        }
        i += 1;
    }
    proof {
        assert(all.take(lines@.len() as int) =~= all);
    }
    Ok(raw)
}

/// The next instruction stands four bytes on, around the end of memory.
pub proof fn lemma_addr_step(base: u32, k: nat)
    ensures
        addr_at(base, k + 1) == addr_at(base, k).wrapping_add(4),
{
    let a = (base + 4 * k) as int;
    assert((a % 0x1_0000_0000 + 4) % 0x1_0000_0000 == (a + 4) % 0x1_0000_0000);
}

/// An error among the first `n` lines of a section is the error of the section.
pub proof fn lemma_section_words_error(
    lines: Seq<Seq<u8>>,
    labels: Map<Seq<u8>, u32>,
    base: u32,
    n: int,
)
    requires
        0 <= n <= lines.len(),
        section_words(lines.take(n), labels, base) is Err,
    ensures
        section_words(lines, labels, base) == section_words(lines.take(n), labels, base),
    decreases lines.len() - n,
{
    if n < lines.len() {
        assert(lines.take(n + 1).drop_last() =~= lines.take(n));
        lemma_section_words_error(lines, labels, base, n + 1);
    } else {
        assert(lines.take(n) =~= lines);
    }
}

/// The bytes of `words`, each word lowest byte first
pub fn words_to_bytes(words: &Vec<u32>) -> (bytes: Vec<u8>)
    ensures
        bytes@ == words_bytes(words@),
{
    let mut bytes: Vec<u8> = Vec::new();
    let mut i: usize = 0;
    assert(words@.take(0) =~= Seq::<u32>::empty());
    while i < words.len()
        invariant
            i <= words@.len(),
            bytes@ == words_bytes(words@.take(i as int)),
        decreases words@.len() - i,
    {
        proof {
            assert(words@.take(i + 1).drop_last() =~= words@.take(i as int));
        }
        let ghost before = bytes@;
        let word = le_bytes(words[i], 4);
        let mut j: usize = 0;
        while j < 4
            invariant
                j <= 4,
                word@.len() == 4,
                bytes@ == before + word@.take(j as int),
            decreases 4 - j,
        {
            bytes.push(word[j]);
            j += 1;
            assert(bytes@ =~= before + word@.take(j as int));
        }
        assert(word@.take(4) =~= word@);
        i += 1;
    }
    proof {
        assert(words@.take(words@.len() as int) =~= words@);
    }
    bytes
}

impl Simulator {
    /// Assemble a section and write it into memory at its load address, where `seed` is
    /// the number that was drawn to pick the physical page
    pub fn load_section(&mut self, section: &Section, seed: u32) -> (r: Result<(), SimErr>)
        requires
            old(self).wf(),
        ensures
            old(self)@.mmu.coherent() && old(self)@.mmu.cache_enabled
                ==> final(self)@.mmu.coherent() && final(self)@.mmu.cache_enabled,
            final(self).stats.total_instrs == old(self).stats.total_instrs,
            final(self).wf(),
            final(self).clock == old(self).clock,
            final(self)@ == old(self)@.section_loaded(section@, seed).0,
            r == old(self)@.section_loaded(section@, seed).1,
    {
        let load_addr = section.load_addr;
        let offset = (load_addr & 0xfff) as usize;
        proof {
            reveal(Machine::section_loaded);
            lemma_page_offset(load_addr);
        }
        if load_addr % 4 != 0 || section.lines.len() > PAGE_SIZE / 4 || offset + 4
            * section.lines.len() > PAGE_SIZE {
            return Err(SimErr::LoadErr);
        }
        // Map page into memory for code

        match self.map_page_from(
            VAddr(load_addr),
            Perms::WRITE | Perms::EXEC | Perms::READ,
            seed,
        ) {
            Ok(()) => {},
            Err(e) => {
                return Err(e);
            },
        }

        // Preprocess all labels to resolve corresponding addresses
        let labels = section_labels(&section.lines, load_addr);

        // Assemble instructions into `raw`
        let raw = match assemble_section(&section.lines, &labels, load_addr) {
            Ok(raw) => raw,
            Err(e) => {
                return Err(e);
            },
        };

        // Write assembled code into memory
        let mut u8_arr = words_to_bytes(&raw);
        proof {
            lemma_words_bytes_len(raw@);
            lemma_section_words_len(
                views(section.lines@),
                label_table(views(section.lines@), load_addr),
                load_addr,
            );
        }
        if raw.len() > 0 {
            match self.mem_write_with(VAddr(load_addr), &mut u8_arr, seed) {
                Ok(_) => {},
                Err(e) => {
                    return Err(e);
                },
            }
        }
        // Entry-point

        if token_is(section.name.as_slice(), "._start") {
            self.pc = VAddr(load_addr);
            self.pipeline.pc = self.pc;
        }
        proof {
            assert(self@ =~~= old(self)@.section_loaded(section@, seed).0);
        }
        Ok(())
    }

    /// Parse the source, assemble it into machine-code and write it into the load-addresses
    /// that it names, where `seed` is the number that was drawn to pick the physical pages
    pub fn load_input_from(&mut self, input: &str, seed: u32) -> (r: Result<(), SimErr>)
        requires
            old(self).wf(),
        ensures
            old(self)@.mmu.coherent() && old(self)@.mmu.cache_enabled
                ==> final(self)@.mmu.coherent() && final(self)@.mmu.cache_enabled,
            final(self).stats.total_instrs == old(self).stats.total_instrs,
            final(self).wf(),
            final(self).clock == old(self).clock,
            final(self)@ == old(self)@.program_loaded(lit(input), seed).0,
            r == old(self)@.program_loaded(lit(input), seed).1,
    {
        // Split up lines and filter out comments/remove whitespace
        let lines = read_lines(input.as_bytes());

        // Iterate through lines and separate them into code-sections with different load-addresses
        let functions = match split_sections(&lines) {
            Ok(functions) => functions,
            Err(e) => {
                return Err(e);
            },
        };
        let ghost sections = section_views(functions@);
        let mut i: usize = 0;
        proof {
            assert(sections.take(0) =~= Seq::<SectionView>::empty());
        }
        while i < functions.len()
            invariant
                i <= functions@.len(),
                sections == section_views(functions@),
                parse_sections(source_lines(lit(input))) == Ok::<Seq<SectionView>, SimErr>(
                    sections,
                ),
                self.wf(),
                self.clock == old(self).clock,
                self.stats.total_instrs == old(self).stats.total_instrs,
                old(self)@.mmu.coherent() && old(self)@.mmu.cache_enabled
                    ==> self@.mmu.coherent() && self@.mmu.cache_enabled,
                old(self)@.sections_loaded(sections.take(i as int), seed).0 == self@,
                old(self)@.sections_loaded(sections.take(i as int), seed).1 is Ok,
            decreases functions@.len() - i,
        {
            let ghost before = self@;
            proof {
                assert(sections.take(i + 1).drop_last() =~= sections.take(i as int));
                assert(sections.take(i + 1).last() == functions@[i as int]@);
                assert(old(self)@.sections_loaded(sections.take(i + 1), seed)
                    == before.section_loaded(functions@[i as int]@, seed));
            }
            let loaded = self.load_section(&functions[i], seed);
            proof {
                let t = before.section_loaded(functions@[i as int]@, seed);
                assert(t.0 == self@);
                assert(t.1 == loaded);
                assert(t == (self@, loaded));
            }
            match loaded {
                Ok(()) => {},
                Err(e) => {
                    proof {
                        lemma_sections_loaded_error(old(self)@, sections, seed, i + 1);
                    }
                    return Err(e);
                },
            }
            i += 1;
        }
        proof {
            assert(sections.take(functions@.len() as int) =~= sections);
        }

        self.clear_caches();
        Ok(())
    }

    /// Parse the source, assemble it into machine-code and write it into the load-addresses
    /// that it names
    pub fn load_input(&mut self, input: &str) -> (r: Result<(), SimErr>)
        requires
            old(self).wf(),
        ensures
            old(self)@.mmu.coherent() && old(self)@.mmu.cache_enabled
                ==> final(self)@.mmu.coherent() && final(self)@.mmu.cache_enabled,
            final(self).stats.total_instrs == old(self).stats.total_instrs,
            final(self).wf(),
            final(self).clock == old(self).clock,
            exists|seed: u32|
                final(self)@ == (#[trigger] old(self)@.program_loaded(lit(input), seed)).0 && r
                    == old(self)@.program_loaded(lit(input), seed).1,
    {
        let seed = random_u32();
        self.load_input_from(input, seed)
    }
}

/// A section among the first `n` that fails is where the load ends.
pub proof fn lemma_sections_loaded_error(m: Machine, sections: Seq<SectionView>, seed: u32, n: int)
    requires
        0 <= n <= sections.len(),
        m.sections_loaded(sections.take(n), seed).1 is Err,
    ensures
        m.sections_loaded(sections, seed) == m.sections_loaded(sections.take(n), seed),
    decreases sections.len() - n,
{
    if n < sections.len() {
        assert(sections.take(n + 1).drop_last() =~= sections.take(n));
        lemma_sections_loaded_error(m, sections, seed, n + 1);
    } else {
        assert(sections.take(n) =~= sections);
    }
}

} // verus!
