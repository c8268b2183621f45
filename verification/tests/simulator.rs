use seal_isa::cpu::{Instr, InstrCode, Register};
use seal_isa::mmu::{Perms, VAddr, PAGE_SIZE};
use seal_isa::pipeline::{Pipeline, Slot, NUM_SLOTS};
use seal_isa::simulator::{
    alu_imm_result, alu_result, branch_taken, registers_clash, SimErr, Simulator,
};
use seal_isa::{as_u16_le, as_u32_le, le_bytes, le_word, Stats, VgaDriver};

const STACK_TOP: u32 = 0x80000 + 20 * 4096 - 4;
const RW: u8 = Perms::READ | Perms::WRITE;

fn machine() -> Simulator {
    let mut sim = Simulator::new();
    sim.map_page(VAddr(0x0), RW).unwrap();
    sim.map_page(VAddr(0x1000), RW).unwrap();
    sim.map_page(VAddr(0x2000), RW).unwrap();
    for i in 0..20u32 {
        sim.map_page(VAddr(0x80000 + i * PAGE_SIZE as u32), RW).unwrap();
    }
    sim.write_reg(Register::R15, STACK_TOP);
    sim
}

fn loaded(source: &str) -> Simulator {
    let mut sim = machine();
    sim.load_input(&format!(".load 0x10000\n._start\n{source}\n.end_section\n")).unwrap();
    sim
}

fn word_at(sim: &mut Simulator, addr: u32) -> u32 {
    let mut reader = vec![0u8; 4];
    sim.gui_mem_read(VAddr(addr), &mut reader).unwrap();
    as_u32_le(&reader)
}

fn store(sim: &mut Simulator, addr: u32, bytes: &[u8]) {
    let mut writer = bytes.to_vec();
    assert_eq!(sim.mem_write(VAddr(addr), &mut writer), Ok(1));
    assert!(writer.is_empty());
}

fn slot(instr: Instr) -> Slot {
    Slot { valid: true, instr, pc: VAddr(0x10020), ..Slot::default() }
}

#[test]
fn bytes_and_numbers() {
    assert_eq!(as_u32_le(&vec![0x44, 0x33, 0x22, 0x11]), 0x1122_3344);
    assert_eq!(as_u32_le(&vec![0xff, 0xff, 0xff, 0xff]), u32::MAX);
    assert_eq!(as_u16_le(&vec![0x34, 0x12]), 0x1234);
    assert_eq!(le_word(&vec![]), 0);
    assert_eq!(le_word(&vec![0xfe]), 0xfe);
    assert_eq!(le_word(&vec![0xfe, 0xff]), 0xfffe);
    assert_eq!(le_word(&vec![1, 2, 3]), 0x03_0201);
    assert_eq!(le_word(&vec![1, 2, 3, 4]), 0x0403_0201);
    assert_eq!(le_bytes(0x1122_3344, 4), vec![0x44, 0x33, 0x22, 0x11]);
    assert_eq!(le_bytes(0x1122_3344, 2), vec![0x44, 0x33]);
    assert_eq!(le_bytes(0x1122_3344, 1), vec![0x44]);
    assert_eq!(le_bytes(0x1122_3344, 0), Vec::<u8>::new());
    for x in [0u32, 1, 0x80, 0xffff, 0x1_0000, 0xdead_beef, u32::MAX] {
        assert_eq!(as_u32_le(&le_bytes(x, 4)), x);
    }
}

#[test]
fn a_new_simulator_is_blank() {
    let sim = Simulator::new();
    assert_eq!(sim.gen_regs, [0u32; 16]);
    assert_eq!(sim.clock, 0);
    assert_eq!(sim.pc, VAddr(0));
    assert_eq!(sim.cur_mem, VAddr(0));
    assert_eq!(sim.cur_cache_set, (0, 0));
    assert!(sim.online);
    assert!(sim.pipelining_enabled);
    assert!(sim.breakpoints.is_empty());
    assert_eq!(sim.stats, Stats::default());
    assert_eq!(sim.stats.total_instrs, 0);
    assert_eq!(sim.pipeline.pc, VAddr(0));
    assert_eq!(sim.pipeline.slots, [Slot::default(); NUM_SLOTS]);
    assert!(!sim.pipeline.disable);
    assert_eq!(sim.pipeline.hazard_thrower, None);
    assert_eq!(sim.pipeline.cur_stage, 0);
    assert!(sim.mmu.mem.is_empty());
    assert_eq!(sim.vga.screen.len(), 240);
    let pipeline = Pipeline::default();
    assert_eq!(pipeline.slots, [Slot::default(); 5]);
    let slot = Slot::default();
    assert!(!slot.valid && !slot.disable);
    assert_eq!(slot.instr, Instr::Empty);
    assert_eq!(slot.mem_stall, None);
    let other = Simulator::default();
    assert_eq!(other.clock, 0);
}

#[test]
fn register_zero_discards_writes() {
    let mut sim = Simulator::new();
    sim.write_reg(Register::R0, 77);
    assert_eq!(sim.read_reg(Register::R0), 0);
    for n in 1..16u32 {
        sim.write_reg(Register::from(n), n * 3);
    }
    for n in 1..16u32 {
        assert_eq!(sim.read_reg(Register::from(n)), n * 3);
    }
    assert_eq!(sim.gen_regs[0], 0);
    assert_eq!(sim.gen_regs[15], 45);
}

#[test]
fn a_long_write_goes_in_chunks() {
    let mut sim = machine();
    sim.map_page(VAddr(0x3000), RW).unwrap();
    let data: Vec<u8> = (1..=10).collect();
    store(&mut sim, 0x3000, &data);
    assert_eq!(word_at(&mut sim, 0x3000), 0x0403_0201);
    assert_eq!(word_at(&mut sim, 0x3004), 0x0807_0605);
    assert_eq!(word_at(&mut sim, 0x3008), 0x0000_0a09);
    store(&mut sim, 0x3011, &[0xaa]);
    store(&mut sim, 0x3016, &[0xbb, 0xcc]);
    assert_eq!(word_at(&mut sim, 0x3010), 0x0000_aa00);
    assert_eq!(word_at(&mut sim, 0x3014), 0xccbb_0000);
    let mut nothing = Vec::new();
    assert_eq!(sim.mem_write(VAddr(0x3001), &mut nothing), Ok(1));
}

#[test]
fn a_write_that_fails_keeps_what_it_did_not_store() {
    let mut sim = machine();
    sim.map_page(VAddr(0x3000), RW).unwrap();
    let mut writer: Vec<u8> = (1..=12).collect();
    assert_eq!(sim.mem_write(VAddr(0x3ff8), &mut writer), Err(SimErr::Permission));
    assert_eq!(writer, vec![9, 10, 11, 12]);
    assert_eq!(word_at(&mut sim, 0x3ff8), 0x0403_0201);
    assert_eq!(word_at(&mut sim, 0x3ffc), 0x0807_0605);
    let mut writer = vec![1u8, 2];
    assert_eq!(sim.mem_write(VAddr(0x4000_0000), &mut writer), Err(SimErr::AddrTranslation));
    assert_eq!(writer, vec![1, 2]);
}

#[test]
fn the_control_register_hands_out_the_clock() {
    let mut sim = machine();
    sim.clock = 77;
    store(&mut sim, 0x2000, &[0x42]);
    assert_eq!(sim.read_reg(Register::R1), 77);
    assert!(sim.online);
    // Another address, and another byte, do nothing of the kind.
    sim.clock = 78;
    store(&mut sim, 0x2004, &[0x42]);
    store(&mut sim, 0x2000, &[0x40, 0x42]);
    store(&mut sim, 0x2000, &[0x44]);
    assert_eq!(sim.read_reg(Register::R1), 77);
    assert_eq!(word_at(&mut sim, 0x2000), 0x0000_4244);
}

#[test]
fn the_control_register_hands_out_the_number_that_was_drawn() {
    let mut sim = machine();
    let mut writer = vec![0x43u8, 0, 0, 0];
    assert_eq!(sim.mem_write_with(VAddr(0x2000), &mut writer, 0xdead_beef), Ok(1));
    assert_eq!(sim.read_reg(Register::R1), 0xdead_beef);
    let mut writer = vec![0x42u8];
    assert_eq!(sim.mem_write_with(VAddr(0x2000), &mut writer, 5), Ok(1));
    assert_eq!(sim.read_reg(Register::R1), 0);
    let mut writer = vec![0x43u8];
    assert_eq!(sim.mem_write(VAddr(0x2000), &mut writer), Ok(1));
    assert!(sim.online);
}

#[test]
fn the_control_register_stops_the_simulator() {
    let mut sim = machine();
    let mut writer = vec![0x41u8];
    assert_eq!(sim.mem_write(VAddr(0x2000), &mut writer), Err(SimErr::Shutdown));
    assert!(!sim.online);
    assert!(writer.is_empty());
    assert_eq!(word_at(&mut sim, 0x2000), 0x41);
}

#[test]
fn the_screen_shows_what_is_written_to_it() {
    let mut sim = machine();
    for (i, cell) in sim.vga.screen.iter().enumerate() {
        assert_eq!(*cell, if i % 30 == 29 { b'\n' } else { b' ' });
    }
    store(&mut sim, 0x1000 + 32, &[b'H', b'i', 0x01, b'\n']);
    assert_eq!(&sim.vga.screen[31..37], &[b' ', b'H', b'i', 0xfe, b'\n', b' ']);
    store(&mut sim, 0x1000, &[0x1f, 0x20, 0x7e, 0x7f]);
    assert_eq!(&sim.vga.screen[0..5], &[0xfe, 0x20, 0x7e, 0xfe, b' ']);
    assert_eq!(word_at(&mut sim, 0x1000), 0x7f7e_201f);
    // What is written past the last cell is not shown.
    store(&mut sim, 0x10ec, &[b'a', b'b', b'c', b'd', b'e', b'f', b'g', b'h']);
    assert_eq!(&sim.vga.screen[236..240], &[b'a', b'b', b'c', b'd']);
    store(&mut sim, 0x10f0, &[b'z']);
    store(&mut sim, 0x10f4, &[b'z']);
    store(&mut sim, 0xffc, &[b'z', b'z', b'z', b'z']);
    assert_eq!(sim.vga.screen.len(), 240);
    assert!(!sim.vga.screen.contains(&b'z'));
}

#[test]
fn the_screen_by_itself() {
    let mut vga = VgaDriver::new();
    vga.write(VAddr(0x1000 + 238), &vec![b'x', b'y', b'z']);
    assert_eq!(&vga.screen[237..], &[b' ', b'x', b'y']);
    vga.write(VAddr(0xffff_fffe), &vec![b'q'; 8]);
    vga.write(VAddr(0x1000), &vec![]);
    assert_eq!(vga.screen[0], b' ');
    assert_eq!(vga.screen.len(), 240);
}

#[test]
fn loads_are_counted_as_hits_and_misses() {
    let mut sim = machine();
    store(&mut sim, 0x80000, &[1, 2, 3, 4]);
    let mut reader = vec![0u8; 4];
    assert_eq!(sim.mem_read(VAddr(0x80000), &mut reader), Ok(()));
    assert_eq!(reader, vec![1, 2, 3, 4]);
    assert_eq!((sim.stats.cache_hits, sim.stats.cache_misses), (0, 1));
    let mut reader = vec![0u8; 2];
    assert_eq!(sim.mem_read(VAddr(0x80000), &mut reader), Ok(()));
    assert_eq!(reader, vec![1, 2]);
    assert_eq!((sim.stats.cache_hits, sim.stats.cache_misses), (1, 1));
    // A look, a load of nothing and a load that fails count nothing.
    sim.gui_mem_read(VAddr(0x80000), &mut reader).unwrap();
    let mut nothing = Vec::new();
    assert_eq!(sim.mem_read(VAddr(0x80000), &mut nothing), Ok(()));
    assert_eq!(sim.mem_read(VAddr(0x7000_0000), &mut reader), Err(SimErr::AddrTranslation));
    assert_eq!(sim.gui_mem_read(VAddr(0x7000_0000), &mut reader), Err(SimErr::AddrTranslation));
    assert_eq!((sim.stats.cache_hits, sim.stats.cache_misses), (1, 1));
    // With caching off nothing is counted.
    sim.mmu.cache_enabled = false;
    let mut reader = vec![0u8; 4];
    assert_eq!(sim.mem_read(VAddr(0x80000), &mut reader), Ok(()));
    assert_eq!(reader, vec![1, 2, 3, 4]);
    assert_eq!((sim.stats.cache_hits, sim.stats.cache_misses), (1, 1));
}

#[test]
fn counters_stop_at_their_end() {
    let mut sim = machine();
    sim.stats.cache_misses = u64::MAX;
    sim.stats.total_instrs = u64::MAX - 1;
    let mut reader = vec![0u8; 4];
    sim.mem_read(VAddr(0x80000), &mut reader).unwrap();
    assert_eq!(sim.stats.cache_misses, u64::MAX);
    sim.pipeline.slots[2] = slot(Instr::Nop);
    sim.pl_execute_stage().unwrap();
    assert_eq!(sim.stats.total_instrs, u64::MAX);
    sim.pl_execute_stage().unwrap();
    assert_eq!(sim.stats.total_instrs, u64::MAX);
}

#[test]
fn decoding_from_memory() {
    let mut sim = loaded("add r1 r2 r3\nret");
    let add = Instr::Add { rs3: Register::R1, rs1: Register::R2, rs2: Register::R3 };
    assert_eq!(sim.gui_decode_instr(VAddr(0x10000)), Ok(add));
    assert_eq!(sim.stats, Stats::default());
    assert_eq!(sim.decode_instr(VAddr(0x10000)), Ok(add));
    assert_eq!(sim.decode_instr(VAddr(0x10004)), Ok(Instr::Ret {}));
    assert_eq!((sim.stats.cache_hits, sim.stats.cache_misses), (1, 1));
    assert_eq!(sim.decode_instr(VAddr(0x10008)), Err(SimErr::InstrDecode));
    assert_eq!(sim.gui_decode_instr(VAddr(0x10008)), Err(SimErr::InstrDecode));
    assert_eq!(sim.decode_instr(VAddr(0x50000)), Err(SimErr::Permission));
    assert_eq!(sim.gui_decode_instr(VAddr(0x7000_0000)), Err(SimErr::AddrTranslation));
}

#[test]
fn a_fetch_from_memory_takes_a_hundred_cycles() {
    let mut sim = loaded("nop\nnop");
    assert_eq!(sim.step(), Ok(()));
    assert_eq!(sim.pipeline.slots[0].mem_stall, Some(99));
    assert_eq!((sim.clock, sim.stats.mem_clock), (1, 1));
    for _ in 1..100 {
        assert_eq!(sim.step(), Ok(()));
    }
    assert_eq!(sim.pipeline.slots[0].mem_stall, Some(0));
    assert!(!sim.pipeline.slots[0].valid);
    assert_eq!((sim.clock, sim.stats.mem_clock), (100, 100));
    assert_eq!(sim.pipeline.pc, VAddr(0x10000));
    // The stages run.
    assert_eq!(sim.step(), Ok(()));
    assert_eq!((sim.clock, sim.stats.mem_clock), (101, 100));
    assert_eq!(sim.pipeline.pc, VAddr(0x10004));
    assert_eq!(sim.pipeline.slots[0], Slot::default());
    assert!(sim.pipeline.slots[1].valid);
    assert_eq!(sim.pipeline.slots[1].instr_backing, 0x7400_0000);
    assert_eq!(sim.pipeline.slots[1].pc, VAddr(0x10000));
    assert_eq!(sim.pipeline.slots[1].mem_stall, Some(0));
    assert_eq!((sim.stats.cache_hits, sim.stats.cache_misses), (0, 1));
    // The next word is in the cache by now: ten cycles.
    assert_eq!(sim.step(), Ok(()));
    assert_eq!(sim.pipeline.slots[0].mem_stall, Some(9));
    for _ in 1..10 {
        sim.step().unwrap();
    }
    assert_eq!(sim.pipeline.slots[0].mem_stall, Some(0));
    assert_eq!(sim.clock, 111);
    sim.step().unwrap();
    assert_eq!(sim.pipeline.pc, VAddr(0x10008));
    assert_eq!(sim.pipeline.slots[2].instr, Instr::Nop);
    assert_eq!((sim.stats.cache_hits, sim.stats.cache_misses), (1, 1));
    assert_eq!(sim.stats.total_instrs, 0);
}

#[test]
fn the_memory_stage_waits_for_its_access() {
    let mut sim = machine();
    sim.pipeline.disable = true;
    sim.pipeline.slots[3] = Slot { addr: VAddr(0x80000), ..slot(Instr::Ld {
        rs3: Register::R1,
        rs1: Register::R0,
        imm: 0,
    }) };
    assert_eq!(sim.process_mem_stalls(true, true), Ok(true));
    assert_eq!(sim.pipeline.slots[3].mem_stall, Some(99));
    assert_eq!(sim.pipeline.slots[0].mem_stall, None);
    assert_eq!(sim.process_mem_stalls(true, true), Ok(true));
    assert_eq!(sim.pipeline.slots[3].mem_stall, Some(98));
    assert_eq!(sim.stats.mem_clock, 2);
    sim.pipeline.slots[3].mem_stall = Some(0);
    assert_eq!(sim.process_mem_stalls(true, true), Ok(false));
    assert_eq!(sim.stats.mem_clock, 2);
    sim.pipeline.slots[3].mem_stall = None;
    assert_eq!(sim.process_mem_stalls(true, false), Ok(false));
    // What does not access memory does not wait.
    sim.pipeline.slots[3] = slot(Instr::Add {
        rs3: Register::R1,
        rs1: Register::R0,
        rs2: Register::R0,
    });
    assert_eq!(sim.process_mem_stalls(false, true), Ok(false));
    // `ret` reads the top of the stack, `call` writes below it, `int0` reads the vector.
    sim.pipeline.slots[3] = slot(Instr::Ret {});
    sim.write_reg(Register::R15, 0x7000_0000);
    assert_eq!(sim.process_mem_stalls(false, true), Err(SimErr::AddrTranslation));
    sim.write_reg(Register::R15, 0x80000);
    assert_eq!(sim.process_mem_stalls(false, true), Ok(true));
    sim.pipeline.slots[3] = slot(Instr::Call { rs3: Register::R0, offset: 0 });
    assert_eq!(sim.process_mem_stalls(false, true), Err(SimErr::Permission));
    sim.pipeline.slots[3] = slot(Instr::Int0 {});
    assert_eq!(sim.process_mem_stalls(false, true), Ok(true));
    assert_eq!(sim.pipeline.slots[3].mem_stall, Some(99));
}

#[test]
fn the_fetch_stage_by_itself() {
    let mut sim = loaded("add r1 r2 r3");
    assert_eq!(sim.pl_fetch_stage(), Ok(()));
    assert_eq!(sim.pipeline.slots[0].instr_backing, 0x0822_1800);
    assert!(sim.pipeline.slots[0].valid);
    assert_eq!(sim.pipeline.slots[0].pc, VAddr(0x10000));
    assert_eq!(sim.pipeline.slots[0].instr, Instr::Empty);
    assert_eq!(sim.pipeline.pc, VAddr(0x10004));
    assert_eq!(sim.pc, VAddr(0x10000));
    sim.pipeline.pc = VAddr(0x10002);
    assert_eq!(sim.pl_fetch_stage(), Err(SimErr::Misaligned));
    sim.pipeline.pc = VAddr(0x20000);
    assert_eq!(sim.pl_fetch_stage(), Err(SimErr::Permission));
    sim.pipeline.pc = VAddr(0x7000_0000);
    assert_eq!(sim.pl_fetch_stage(), Err(SimErr::AddrTranslation));
    assert_eq!(sim.pipeline.pc, VAddr(0x7000_0000));
}

#[test]
fn the_decode_stage_reads_the_operands() {
    let mut sim = machine();
    sim.write_reg(Register::R1, 11);
    sim.write_reg(Register::R2, 22);
    sim.write_reg(Register::R3, 33);
    sim.pipeline.slots[1] = Slot { valid: true, instr_backing: 0x0822_1800, ..Slot::default() };
    assert_eq!(sim.pl_decode_stage(), Ok(()));
    let s = sim.pipeline.slots[1];
    assert_eq!(s.instr, Instr::Add { rs3: Register::R1, rs1: Register::R2, rs2: Register::R3 });
    assert_eq!((s.rs3, s.rs1, s.rs2), (11, 22, 33));
    // addi r1 r2 -1
    sim.pipeline.slots[1] = Slot { valid: true, instr_backing: 0x2422_ffff, ..Slot::default() };
    assert_eq!(sim.pl_decode_stage(), Ok(()));
    let s = sim.pipeline.slots[1];
    assert_eq!((s.rs3, s.rs1, s.imm, s.offset), (11, 22, -1, -1));
    // lui r2 0x1234
    sim.pipeline.slots[1] = Slot { valid: true, instr_backing: 0x6840_1234, ..Slot::default() };
    assert_eq!(sim.pl_decode_stage(), Ok(()));
    let s = sim.pipeline.slots[1];
    assert_eq!((s.rs3, s.rs1, s.imm, s.offset), (22, 0, 0x1234, 0));
    assert!(!sim.pipeline.disable);
    // A slot that holds nothing is left alone.
    sim.pipeline.slots[1] = Slot { instr_backing: 0x0822_1800, ..Slot::default() };
    assert_eq!(sim.pl_decode_stage(), Ok(()));
    assert_eq!(sim.pipeline.slots[1].instr, Instr::Empty);
}

#[test]
fn the_decode_stage_refuses_what_is_no_instruction() {
    let mut sim = machine();
    for word in [0u32, 0xffff_ffff, 24 << 26] {
        let before = Slot { valid: true, instr_backing: word, ..Slot::default() };
        sim.pipeline.slots[1] = before;
        assert_eq!(sim.pl_decode_stage(), Err(SimErr::InstrDecode));
        assert_eq!(sim.pipeline.slots[1], before);
    }
    // A register that does not exist: the instruction is in the slot, its operands are not.
    sim.write_reg(Register::R2, 22);
    for (word, instr) in [
        (
            (2u32 << 26) | (16 << 21) | (2 << 16),
            Instr::Add { rs3: Register::NoReg, rs1: Register::R2, rs2: Register::R0 },
        ),
        ((25 << 26) | (31 << 21), Instr::Jmpr { rs3: Register::NoReg, offset: 0 }),
    ] {
        let before = Slot { valid: true, instr_backing: word, ..Slot::default() };
        sim.pipeline.slots[1] = before;
        sim.pipeline.pc = VAddr(0x10010);
        assert_eq!(sim.pl_decode_stage(), Err(SimErr::InstrDecode));
        assert_eq!(sim.pipeline.slots[1], Slot { instr, ..before });
        assert_eq!(sim.pipeline.pc, VAddr(0x10010));
        assert!(!sim.pipeline.disable);
    }
    // The register field of `call` is not read.
    sim.pipeline.slots[1] =
        Slot { valid: true, instr_backing: (27 << 26) | (31 << 21) | 0x40, ..Slot::default() };
    assert_eq!(sim.pl_decode_stage(), Ok(()));
    assert_eq!(sim.pipeline.pc, VAddr(0x40));
}

#[test]
fn a_hazard_comes_before_a_register_that_does_not_exist() {
    let mut sim = machine();
    let word = (2u32 << 26) | (16 << 21) | (2 << 16) | (3 << 11);
    let before = Slot { valid: true, instr_backing: word, ..Slot::default() };
    sim.pipeline.slots[1] = before;
    sim.pipeline.slots[3] = slot(Instr::Addi { rs3: Register::R2, rs1: Register::R0, imm: 1 });
    assert_eq!(sim.pl_decode_stage(), Ok(()));
    assert!(sim.pipeline.disable);
    assert_eq!(sim.pipeline.hazard_thrower, Some(1));
    assert!(sim.pipeline.slots[0].disable && sim.pipeline.slots[1].disable);
    let instr = Instr::Add { rs3: Register::NoReg, rs1: Register::R2, rs2: Register::R3 };
    assert_eq!(sim.pipeline.slots[1], Slot { instr, disable: true, ..before });
    // Once the hazard is gone the pipeline is let go, and the instruction is refused.
    sim.pipeline.slots[3] = Slot::default();
    assert_eq!(sim.pl_decode_stage(), Err(SimErr::InstrDecode));
    assert!(!sim.pipeline.disable);
    assert!(sim.pipeline.slots.iter().all(|s| !s.disable));
    assert_eq!(sim.pipeline.slots[1], Slot { instr, ..before });
}

#[test]
fn control_flow_redirects_the_fetch_stage() {
    let fetched = Slot { valid: true, instr_backing: 0x7400_0000, ..Slot::default() };
    // jmpr +0x20, with the fetch stage two words ahead
    let mut sim = machine();
    sim.pipeline.pc = VAddr(0x10010);
    sim.pipeline.slots[0] = fetched;
    sim.pipeline.slots[1] = Slot { valid: true, instr_backing: 0x6400_0020, ..Slot::default() };
    assert_eq!(sim.pl_decode_stage(), Ok(()));
    assert_eq!(sim.pipeline.pc, VAddr(0x10028));
    assert_eq!(sim.pipeline.slots[0], Slot::default());
    assert_eq!(sim.pipeline.slots[1].offset, 0x20);
    assert!(!sim.pipeline.disable);
    // and one word ahead where pipelining is off
    let mut sim = machine();
    sim.pipelining_enabled = false;
    sim.pipeline.pc = VAddr(0x10010);
    sim.pipeline.slots[1] = Slot { valid: true, instr_backing: 0x641f_fffc, ..Slot::default() };
    assert_eq!(sim.pl_decode_stage(), Ok(()));
    assert_eq!(sim.pipeline.pc, VAddr(0x10008));
    // call
    let mut sim = machine();
    sim.pipeline.slots[0] = fetched;
    sim.pipeline.slots[1] = Slot { valid: true, instr_backing: 0x6C01_1000, ..Slot::default() };
    assert_eq!(sim.pl_decode_stage(), Ok(()));
    assert_eq!(sim.pipeline.pc, VAddr(0x11000));
    assert_eq!(sim.pipeline.slots[1].addr, VAddr(0x11000));
    assert_eq!(sim.pipeline.slots[0], Slot::default());
    // ret
    let mut sim = machine();
    sim.write_reg(Register::R14, 0x10004);
    sim.pipeline.slots[0] = fetched;
    sim.pipeline.slots[1] = Slot { valid: true, instr_backing: 0x71C0_0000, ..Slot::default() };
    assert_eq!(sim.pl_decode_stage(), Ok(()));
    assert_eq!(sim.pipeline.pc, VAddr(0x10004));
    assert_eq!(sim.pipeline.slots[1].addr, VAddr(0x10004));
    assert_eq!(sim.pipeline.slots[0], Slot::default());
    // a branch and int0 stop the fetch stage
    for word in [0x5020_fffcu32, 0xA000_0000] {
        let mut sim = machine();
        sim.pipeline.pc = VAddr(0x10010);
        sim.pipeline.slots[0] = fetched;
        sim.pipeline.slots[1] = Slot { valid: true, instr_backing: word, ..Slot::default() };
        assert_eq!(sim.pl_decode_stage(), Ok(()));
        assert!(sim.pipeline.disable);
        assert_eq!(sim.pipeline.slots[0], Slot::default());
        assert_eq!(sim.pipeline.pc, VAddr(0x10010));
    }
}

#[test]
fn a_register_that_is_still_to_be_written_holds_the_decode_stage() {
    let mut sim = machine();
    sim.write_reg(Register::R2, 22);
    let add = Slot { valid: true, instr_backing: 0x0822_1800, ..Slot::default() };
    sim.pipeline.slots[0] = Slot { valid: true, instr_backing: 0x7400_0000, ..Slot::default() };
    sim.pipeline.slots[1] = add;
    // Slot 3 writes r2, which the `add` reads.
    sim.pipeline.slots[3] = slot(Instr::Addi { rs3: Register::R2, rs1: Register::R0, imm: 1 });
    assert_eq!(sim.pl_decode_stage(), Ok(()));
    assert!(sim.pipeline.disable);
    assert_eq!(sim.pipeline.hazard_thrower, Some(1));
    assert!(sim.pipeline.slots[0].disable && sim.pipeline.slots[1].disable);
    assert!(!sim.pipeline.slots[2].disable && !sim.pipeline.slots[3].disable);
    assert_eq!(sim.pipeline.slots[1].rs1, 0);
    // Held slots stay in place while the others advance.
    assert_eq!(sim.advance_pipeline(), Ok(()));
    assert!(sim.pipeline.slots[0].valid && sim.pipeline.slots[1].valid);
    assert!(!sim.pipeline.slots[2].valid && !sim.pipeline.slots[3].valid);
    assert!(sim.pipeline.slots[4].valid);
    assert_eq!(sim.pl_decode_stage(), Ok(()));
    assert!(sim.pipeline.disable);
    // Once the writer is gone the stage goes on, and the pipeline with it.
    sim.advance_pipeline().unwrap();
    assert_eq!(sim.pl_decode_stage(), Ok(()));
    assert!(!sim.pipeline.disable);
    assert!(sim.pipeline.slots.iter().all(|s| !s.disable));
    assert_eq!(sim.pipeline.slots[1].rs1, 22);
    // What slot 2 writes counts too; what an empty slot held does not.
    let mut sim = machine();
    sim.pipeline.slots[1] = add;
    sim.pipeline.slots[2] = slot(Instr::St { rs3: Register::R3, rs1: Register::R0, imm: 0 });
    assert_eq!(sim.pl_decode_stage(), Ok(()));
    assert!(sim.pipeline.disable);
    let mut sim = machine();
    sim.pipeline.slots[1] = add;
    sim.pipeline.slots[4] = Slot { valid: false, ..slot(Instr::Lui { rs3: Register::R3, imm: 0 }) };
    sim.pipeline.slots[3] = slot(Instr::Bne { rs3: Register::R3, rs1: Register::R2, imm: 0 });
    assert_eq!(sim.pl_decode_stage(), Ok(()));
    assert!(!sim.pipeline.disable);
}

#[test]
fn hazards_by_themselves() {
    let (a, b, c) = (Register::R1, Register::R2, Register::R3);
    assert!(registers_clash(&vec![a], &vec![b, a]));
    assert!(registers_clash(&vec![Register::R14, Register::R15], &vec![Register::R15]));
    assert!(!registers_clash(&vec![a], &vec![b, c]));
    assert!(!registers_clash(&vec![], &vec![b, c]));
    assert!(!registers_clash(&vec![a], &vec![]));
    let mut sim = machine();
    sim.pipeline.slots[4] = slot(Instr::Ret {});
    assert!(!sim.caused_data_hazards(4, &vec![Register::R14]));
    assert!(!sim.pipeline.disable);
    assert!(sim.caused_data_hazards(2, &vec![Register::R14]));
    assert!(sim.pipeline.disable);
    assert!(sim.pipeline.slots[..3].iter().all(|s| s.disable));
    assert!(!sim.pipeline.slots[3].disable && !sim.pipeline.slots[4].disable);
}

#[test]
fn arithmetic_wraps() {
    assert_eq!(alu_result(InstrCode::Add, 0xffff_ffff, 2), 1);
    assert_eq!(alu_result(InstrCode::Add, 7, 8), 15);
    assert_eq!(alu_result(InstrCode::Sub, 1, 2), 0xffff_ffff);
    assert_eq!(alu_result(InstrCode::Xor, 0b1100, 0b1010), 0b0110);
    assert_eq!(alu_result(InstrCode::Or, 0b1100, 0b1010), 0b1110);
    assert_eq!(alu_result(InstrCode::And, 0b1100, 0b1010), 0b1000);
    assert_eq!(alu_result(InstrCode::Shr, 0x8000_0000, 31), 1);
    assert_eq!(alu_result(InstrCode::Shr, 0x8000_0000, 33), 0x4000_0000);
    assert_eq!(alu_result(InstrCode::Shl, 1, 31), 0x8000_0000);
    assert_eq!(alu_result(InstrCode::Shl, 3, 32), 3);
    assert_eq!(alu_result(InstrCode::Shl, 0xffff_ffff, 4), 0xffff_fff0);
    assert_eq!(alu_result(InstrCode::Mul, 0x1_0001, 0x1_0001), 0x2_0001);
    assert_eq!(alu_result(InstrCode::Mul, 9, 3), 27);
    assert_eq!(alu_result(InstrCode::Div, 7, 2), 3);
    assert_eq!(alu_result(InstrCode::Div, 0xffff_ffff, 2), 0x7fff_ffff);
    assert_eq!(alu_imm_result(InstrCode::Addi, 5, -1), 4);
    assert_eq!(alu_imm_result(InstrCode::Addi, 0, -1), 0xffff_ffff);
    assert_eq!(alu_imm_result(InstrCode::Subi, 0, 1), 0xffff_ffff);
    assert_eq!(alu_imm_result(InstrCode::Subi, 5, -3), 8);
    assert_eq!(alu_imm_result(InstrCode::Xori, 0x0f0f, -1), 0xffff_f0f0);
    assert_eq!(alu_imm_result(InstrCode::Ori, 0x0f00, 0x00f0), 0x0ff0);
    assert_eq!(alu_imm_result(InstrCode::Andi, 0x1234_5678, -0x100), 0x1234_5600);
    assert!(branch_taken(InstrCode::Bne, 1, 2));
    assert!(!branch_taken(InstrCode::Bne, 2, 2));
    assert!(branch_taken(InstrCode::Beq, 2, 2));
    assert!(branch_taken(InstrCode::Blt, 1, 0xffff_ffff));
    assert!(!branch_taken(InstrCode::Blt, 2, 2));
    assert!(branch_taken(InstrCode::Bgt, 0xffff_ffff, 1));
    assert!(!branch_taken(InstrCode::Bgt, 1, 2));
}

fn execute(s: Slot) -> (Simulator, Result<(), SimErr>) {
    let mut sim = machine();
    sim.pipeline.pc = VAddr(0x10028);
    sim.pipeline.slots[0] = slot(Instr::Nop);
    sim.pipeline.slots[1] = slot(Instr::Nop);
    sim.pipeline.slots[2] = s;
    let r = sim.pl_execute_stage();
    (sim, r)
}

#[test]
fn the_execute_stage_computes_and_counts() {
    let (a, b, c) = (Register::R1, Register::R2, Register::R3);
    let (sim, r) = execute(Slot { rs1: 9, rs2: 3, ..slot(Instr::Mul { rs3: a, rs1: b, rs2: c }) });
    assert_eq!(r, Ok(()));
    assert_eq!(sim.pipeline.slots[2].rs3, 27);
    assert_eq!((sim.stats.total_instrs, sim.stats.arithmetic_instrs), (1, 1));
    assert!(sim.pipeline.slots[0].valid && sim.pipeline.slots[1].valid);
    assert_eq!(sim.gen_regs[1], 0);
    let (sim, _) = execute(Slot { rs1: 9, imm: -10, ..slot(Instr::Addi { rs3: a, rs1: b, imm: -10 }) });
    assert_eq!(sim.pipeline.slots[2].rs3, 0xffff_ffff);
    assert_eq!(sim.stats.arithmetic_instrs, 1);
    let (sim, _) = execute(Slot { imm: 0x1234, ..slot(Instr::Lui { rs3: a, imm: 0x1234 }) });
    assert_eq!(sim.pipeline.slots[2].rs3, 0x0123_4000);
    let (sim, _) = execute(Slot { imm: -1, ..slot(Instr::Lui { rs3: a, imm: -1 }) });
    assert_eq!(sim.pipeline.slots[2].rs3, 0xffff_f000);
    assert_eq!(sim.stats.arithmetic_instrs, 1);
    // Addresses of loads and stores
    let (sim, _) = execute(Slot { rs1: 0x80010, offset: -0x10, ..slot(Instr::Ld { rs3: a, rs1: b, imm: -0x10 }) });
    assert_eq!(sim.pipeline.slots[2].addr, VAddr(0x80000));
    assert_eq!((sim.stats.total_instrs, sim.stats.load_instrs), (1, 1));
    let (sim, _) = execute(Slot { rs1: 2, offset: -4, ..slot(Instr::Stb { rs3: a, rs1: b, imm: -4 }) });
    assert_eq!(sim.pipeline.slots[2].addr, VAddr(0xffff_fffe));
    assert_eq!((sim.stats.total_instrs, sim.stats.store_instrs), (1, 1));
    // jmpr takes its address from the fetch cursor
    let (sim, _) = execute(Slot { offset: 0x20, ..slot(Instr::Jmpr { rs3: a, offset: 0x20 }) });
    assert_eq!(sim.pipeline.slots[2].addr, VAddr(0x10048));
    assert_eq!(sim.pipeline.pc, VAddr(0x10028));
    assert_eq!(sim.stats.control_instrs, 1);
    for instr in [Instr::Call { rs3: a, offset: 8 }, Instr::Ret {}, Instr::Int0 {}] {
        let (sim, r) = execute(slot(instr));
        assert_eq!(r, Ok(()));
        assert_eq!((sim.stats.total_instrs, sim.stats.control_instrs), (1, 1));
        assert_eq!(sim.pipeline.slots[2], slot(instr));
    }
    let (sim, r) = execute(slot(Instr::Nop));
    assert_eq!(r, Ok(()));
    assert_eq!(sim.stats, Stats { total_instrs: 1, ..Stats::default() });
}

#[test]
fn the_execute_stage_counts_what_it_finds() {
    let (sim, r) = execute(Slot { valid: false, ..slot(Instr::Invalid) });
    assert_eq!(r, Ok(()));
    assert_eq!(sim.stats, Stats::default());
    assert!(sim.can_execute());
    // A word that encodes no instruction must not reach the stage: a step that finds
    // one there stops the simulator, and the stage does not run.
    for instr in [Instr::Invalid, Instr::Empty] {
        for pipelining in [true, false] {
            let mut sim = machine();
            sim.pipelining_enabled = pipelining;
            sim.pipeline.cur_stage = 2;
            sim.pipeline.disable = true;
            sim.pipeline.slots[2] = slot(instr);
            assert!(!sim.can_execute());
            assert_eq!(sim.step(), Err(SimErr::InstrDecode));
            assert!(!sim.online);
            assert_eq!(sim.stats, Stats::default());
            assert_eq!(sim.clock, 1);
            assert_eq!(sim.pipeline.slots[3], slot(instr));
        }
    }
    let mut sim = machine();
    sim.pipeline.slots[2] = slot(Instr::Nop);
    assert!(sim.can_execute());
}

#[test]
fn a_division_by_zero_is_an_error() {
    let div = Instr::Div { rs3: Register::R3, rs1: Register::R1, rs2: Register::R2 };
    let (sim, r) = execute(Slot { rs1: 5, rs2: 0, rs3: 99, ..slot(div) });
    assert_eq!(r, Err(SimErr::DivByZero));
    assert_eq!(sim.pipeline.slots[2].rs3, 99);
    assert_eq!((sim.stats.total_instrs, sim.stats.arithmetic_instrs), (1, 0));
    assert!(sim.online);
    let (sim, r) = execute(Slot { rs1: 5, rs2: 2, ..slot(div) });
    assert_eq!(r, Ok(()));
    assert_eq!(sim.pipeline.slots[2].rs3, 2);
}

#[test]
fn a_branch_sends_the_fetch_stage_to_where_it_continues() {
    let bne = Instr::Bne { rs3: Register::R1, rs1: Register::R0, imm: -8 };
    let (mut sim, r) = execute(Slot { rs3: 1, rs1: 0, imm: -8, ..slot(bne) });
    assert_eq!(r, Ok(()));
    assert_eq!(sim.pipeline.pc, VAddr(0x10018));
    assert_eq!(sim.pipeline.slots[2].addr, VAddr(0x10018));
    assert_eq!(sim.pipeline.slots[0], Slot::default());
    assert_eq!(sim.pipeline.slots[1], Slot::default());
    assert!(!sim.pipeline.disable);
    assert_eq!(sim.stats.control_instrs, 1);
    assert_eq!(sim.pc, VAddr(0));
    // The program counter follows in the memory stage.
    sim.advance_pipeline().unwrap();
    assert_eq!(sim.pl_mem_stage(), Ok(()));
    assert_eq!(sim.pc, VAddr(0x10018));
    // Not taken: the next instruction.
    let (sim, _) = execute(Slot { rs3: 0, rs1: 0, imm: -8, ..slot(bne) });
    assert_eq!(sim.pipeline.pc, VAddr(0x10024));
    assert_eq!(sim.pipeline.slots[0], Slot::default());
    let mut held = slot(bne);
    held.rs3 = 1;
    held.imm = 0x7ffc;
    let mut sim = machine();
    sim.pipeline.disable = true;
    sim.pipeline.slots[2] = held;
    sim.pl_execute_stage().unwrap();
    assert!(!sim.pipeline.disable);
    assert_eq!(sim.pipeline.pc, VAddr(0x1801c));
}

fn access(s: Slot) -> (Simulator, Result<(), SimErr>) {
    let mut sim = machine();
    let mut data = vec![0x11u8, 0x22, 0x33, 0x84];
    sim.mem_write(VAddr(0x80010), &mut data).unwrap();
    sim.pc = VAddr(0x10000);
    sim.pipeline.slots[3] = s;
    let r = sim.pl_mem_stage();
    (sim, r)
}

#[test]
fn loads_extend_with_zeros() {
    let at = |instr: Instr, addr: u32| Slot { addr: VAddr(addr), rs3: 0xffff_ffff, ..slot(instr) };
    let (a, b) = (Register::R1, Register::R2);
    let (sim, r) = access(at(Instr::Ld { rs3: a, rs1: b, imm: 0 }, 0x80010));
    assert_eq!(r, Ok(()));
    assert_eq!(sim.pipeline.slots[3].rs3, 0x8433_2211);
    assert_eq!(sim.pc, VAddr(0x10024));
    assert_eq!(sim.gen_regs[1], 0);
    let (sim, _) = access(at(Instr::Ldh { rs3: a, rs1: b, imm: 0 }, 0x80010));
    assert_eq!(sim.pipeline.slots[3].rs3, 0x2211);
    let (sim, _) = access(at(Instr::Ldb { rs3: a, rs1: b, imm: 0 }, 0x80010));
    assert_eq!(sim.pipeline.slots[3].rs3, 0x11);
    assert_eq!((sim.stats.cache_hits, sim.stats.cache_misses), (0, 1));
    for instr in [
        Instr::Ld { rs3: a, rs1: b, imm: 0 },
        Instr::Ldh { rs3: a, rs1: b, imm: 0 },
        Instr::Ldb { rs3: a, rs1: b, imm: 0 },
    ] {
        for addr in [0x80011, 0x80012, 0x80013] {
            let (sim, r) = access(at(instr, addr));
            assert_eq!(r, Err(SimErr::Misaligned));
            assert_eq!(sim.pipeline.slots[3].rs3, 0xffff_ffff);
            assert_eq!(sim.pc, VAddr(0x10024));
        }
        assert_eq!(access(at(instr, 0x7000_0000)).1, Err(SimErr::AddrTranslation));
        assert_eq!(access(at(instr, 0x50000)).1, Err(SimErr::Permission));
    }
}

#[test]
fn stores_write_the_low_bytes() {
    let at = |instr: Instr, addr: u32| Slot { addr: VAddr(addr), rs3: 0xa1b2_c3d4, ..slot(instr) };
    let (a, b) = (Register::R1, Register::R2);
    let (mut sim, r) = access(at(Instr::St { rs3: a, rs1: b, imm: 0 }, 0x80020));
    assert_eq!(r, Ok(()));
    assert_eq!(word_at(&mut sim, 0x80020), 0xa1b2_c3d4);
    assert_eq!(sim.pc, VAddr(0x10024));
    let (mut sim, _) = access(at(Instr::Sth { rs3: a, rs1: b, imm: 0 }, 0x80012));
    assert_eq!(word_at(&mut sim, 0x80010), 0xc3d4_2211);
    let (mut sim, _) = access(at(Instr::Stb { rs3: a, rs1: b, imm: 0 }, 0x80011));
    assert_eq!(word_at(&mut sim, 0x80010), 0x8433_d411);
    for (instr, addr) in [
        (Instr::St { rs3: a, rs1: b, imm: 0 }, 0x80011u32),
        (Instr::St { rs3: a, rs1: b, imm: 0 }, 0x80012),
        (Instr::Sth { rs3: a, rs1: b, imm: 0 }, 0x80013),
    ] {
        let (mut sim, r) = access(at(instr, addr));
        assert_eq!(r, Err(SimErr::Misaligned));
        assert_eq!(word_at(&mut sim, 0x80010), 0x8433_2211);
    }
    assert_eq!(
        access(at(Instr::St { rs3: a, rs1: b, imm: 0 }, 0x50000)).1,
        Err(SimErr::Permission)
    );
    // A store reaches the control register and the screen.
    let (sim, r) = access(Slot { addr: VAddr(0x2000), rs3: 0x41, ..slot(Instr::Stb { rs3: a, rs1: b, imm: 0 }) });
    assert_eq!(r, Err(SimErr::Shutdown));
    assert!(!sim.online);
    let (sim, r) = access(Slot { addr: VAddr(0x1004), rs3: 0x4142_4344, ..slot(Instr::St { rs3: a, rs1: b, imm: 0 }) });
    assert_eq!(r, Ok(()));
    assert_eq!(&sim.vga.screen[4..8], b"DCBA");
}

#[test]
fn the_memory_stage_moves_the_program_counter() {
    let (a, b) = (Register::R1, Register::R2);
    let (sim, r) = access(slot(Instr::Add { rs3: a, rs1: b, rs2: b }));
    assert_eq!((sim.pc, r), (VAddr(0x10024), Ok(())));
    let (sim, _) = access(slot(Instr::Invalid));
    assert_eq!(sim.pc, VAddr(0x10024));
    let (sim, _) = access(Slot { valid: false, ..slot(Instr::Nop) });
    assert_eq!(sim.pc, VAddr(0x10000));
    let (sim, _) = access(Slot { addr: VAddr(0x10100), ..slot(Instr::Beq { rs3: a, rs1: b, imm: 4 }) });
    assert_eq!(sim.pc, VAddr(0x10100));
    let (sim, _) = access(Slot { offset: -0x20, ..slot(Instr::Jmpr { rs3: a, offset: -0x20 }) });
    assert_eq!(sim.pc, VAddr(0xffe0));
    assert_eq!(sim.pipeline.pc, VAddr(0));
}

#[test]
fn call_pushes_and_ret_pops_the_link_register() {
    let mut sim = machine();
    sim.pc = VAddr(0x10000);
    sim.write_reg(Register::R14, 0xaabb_ccdd);
    sim.pipeline.slots[3] = Slot { addr: VAddr(0x11000), ..slot(Instr::Call { rs3: Register::R0, offset: 0x11000 }) };
    assert_eq!(sim.pl_mem_stage(), Ok(()));
    assert_eq!(sim.read_reg(Register::R15), STACK_TOP - 4);
    assert_eq!(word_at(&mut sim, STACK_TOP - 4), 0xaabb_ccdd);
    assert_eq!(sim.read_reg(Register::R14), 0x10004);
    assert_eq!(sim.pc, VAddr(0x11000));
    // ret reads the saved register into its slot; the writeback stage restores it.
    sim.pipeline.slots[3] = Slot { addr: VAddr(0x10004), ..slot(Instr::Ret {}) };
    assert_eq!(sim.pl_mem_stage(), Ok(()));
    assert_eq!(sim.pipeline.slots[3].rs3, 0xaabb_ccdd);
    assert_eq!(sim.pc, VAddr(0x10004));
    assert_eq!(sim.read_reg(Register::R14), 0x10004);
    sim.advance_pipeline().unwrap();
    assert_eq!(sim.pl_writeback_stage(), Ok(()));
    assert_eq!(sim.read_reg(Register::R14), 0xaabb_ccdd);
    assert_eq!(sim.read_reg(Register::R15), STACK_TOP);
    // A stack that is not there, or not aligned
    sim.write_reg(Register::R15, 0x7000_0000);
    sim.pipeline.slots[3] = slot(Instr::Ret {});
    assert_eq!(sim.pl_mem_stage(), Err(SimErr::AddrTranslation));
    sim.pipeline.slots[3] = slot(Instr::Call { rs3: Register::R0, offset: 0 });
    assert_eq!(sim.pl_mem_stage(), Err(SimErr::AddrTranslation));
    assert_eq!(sim.read_reg(Register::R15), 0x6fff_fffc);
    sim.write_reg(Register::R15, 0x80002);
    sim.pipeline.slots[3] = slot(Instr::Ret {});
    assert_eq!(sim.pl_mem_stage(), Err(SimErr::Misaligned));
    sim.pipeline.slots[3] = slot(Instr::Call { rs3: Register::R0, offset: 0 });
    assert_eq!(sim.pl_mem_stage(), Err(SimErr::Misaligned));
    // The stack pointer wraps below zero.
    sim.write_reg(Register::R15, 0);
    assert_eq!(sim.pl_mem_stage(), Err(SimErr::AddrTranslation));
    assert_eq!(sim.read_reg(Register::R15), 0xffff_fffc);
}

#[test]
fn int0_continues_at_the_vector() {
    let mut sim = machine();
    store(&mut sim, 0x0, &[0x00, 0x40, 0x01, 0x00]);
    sim.pipeline.disable = true;
    for i in 0..3 {
        sim.pipeline.slots[i] = slot(Instr::Nop);
    }
    sim.pipeline.slots[3] = slot(Instr::Int0 {});
    sim.pipeline.slots[4] = slot(Instr::Nop);
    assert_eq!(sim.pl_mem_stage(), Ok(()));
    assert_eq!(sim.pc, VAddr(0x14000));
    assert_eq!(sim.pipeline.pc, VAddr(0x14000));
    assert_eq!(sim.pipeline.slots[3].addr, VAddr(0x14000));
    assert!(!sim.pipeline.disable);
    assert!(sim.pipeline.slots[..3].iter().all(|s| *s == Slot::default()));
    assert!(sim.pipeline.slots[4].valid);
    let mut bare = Simulator::new();
    bare.pipeline.slots[3] = slot(Instr::Int0 {});
    assert_eq!(bare.pl_mem_stage(), Err(SimErr::AddrTranslation));
    assert_eq!(bare.pc, VAddr(0x10024));
}

#[test]
fn the_writeback_stage_writes_the_result() {
    let (a, b) = (Register::R5, Register::R2);
    let back = |instr: Instr| {
        let mut sim = machine();
        sim.write_reg(Register::R14, 0x10004);
        sim.pipeline.slots[4] = Slot { rs3: 0x1234, ..slot(instr) };
        let r = sim.pl_writeback_stage();
        (sim, r)
    };
    for instr in [
        Instr::Add { rs3: a, rs1: b, rs2: b },
        Instr::Div { rs3: a, rs1: b, rs2: b },
        Instr::Andi { rs3: a, rs1: b, imm: 0 },
        Instr::Lui { rs3: a, imm: 0 },
        Instr::Ldb { rs3: a, rs1: b, imm: 0 },
        Instr::Ld { rs3: a, rs1: b, imm: 0 },
    ] {
        let (sim, r) = back(instr);
        assert_eq!(r, Ok(()));
        assert_eq!(sim.read_reg(a), 0x1234, "{instr:?}");
    }
    for instr in [
        Instr::St { rs3: a, rs1: b, imm: 0 },
        Instr::Stb { rs3: a, rs1: b, imm: 0 },
        Instr::Bne { rs3: a, rs1: b, imm: 0 },
        Instr::Jmpr { rs3: a, offset: 0 },
        Instr::Call { rs3: a, offset: 0 },
        Instr::Int0 {},
        Instr::Nop,
        Instr::Empty,
    ] {
        let (sim, r) = back(instr);
        assert_eq!(r, Ok(()));
        assert_eq!(sim.read_reg(a), 0, "{instr:?}");
        assert_eq!(sim.read_reg(Register::R14), 0x10004);
        assert_eq!(sim.read_reg(Register::R15), STACK_TOP);
    }
    let (sim, r) = back(Instr::Add { rs3: Register::R0, rs1: b, rs2: b });
    assert_eq!(r, Ok(()));
    assert_eq!(sim.gen_regs[0], 0);
    let (sim, r) = back(Instr::Ret {});
    assert_eq!(r, Ok(()));
    assert_eq!(sim.read_reg(Register::R14), 0x1234);
    assert_eq!(sim.read_reg(Register::R15), STACK_TOP + 4);
    let mut sim = machine();
    sim.pipeline.slots[4] = Slot { valid: false, rs3: 7, ..slot(Instr::Invalid) };
    assert!(sim.can_write_back());
    assert_eq!(sim.pl_writeback_stage(), Ok(()));
    // A word that encodes no instruction, and a result for a register that does not
    // exist, must not reach the stage: a step that finds one there stops the simulator.
    for instr in [Instr::Invalid, Instr::Add { rs3: Register::NoReg, rs1: b, rs2: b }] {
        for pipelining in [true, false] {
            let mut sim = machine();
            sim.pipelining_enabled = pipelining;
            sim.pipeline.cur_stage = 4;
            sim.pipeline.disable = true;
            sim.pipeline.slots[4] = Slot { rs3: 0x1234, ..slot(instr) };
            assert!(!sim.can_write_back());
            assert_eq!(sim.step(), Err(SimErr::InstrDecode));
            assert!(!sim.online);
            assert_eq!(sim.gen_regs, machine().gen_regs);
        }
    }
    for instr in [Instr::Nop, Instr::Empty, Instr::St { rs3: Register::NoReg, rs1: b, imm: 0 }] {
        let mut sim = machine();
        sim.pipeline.slots[4] = slot(instr);
        assert!(sim.can_write_back());
    }
}

#[test]
fn the_pipeline_advances() {
    let mut sim = machine();
    let mark = |n: u32| Slot { instr_backing: n, ..slot(Instr::Nop) };
    for i in 0..5 {
        sim.pipeline.slots[i] = mark(i as u32);
    }
    assert_eq!(sim.advance_pipeline(), Ok(()));
    assert_eq!(sim.pipeline.slots[0], Slot::default());
    for i in 1..5 {
        assert_eq!(sim.pipeline.slots[i], mark(i as u32 - 1));
    }
    // Slots that are held stay, and the slot above them is emptied.
    let mut sim = machine();
    for i in 0..5 {
        sim.pipeline.slots[i] = mark(i as u32);
    }
    sim.pipeline.slots[0].disable = true;
    sim.pipeline.slots[1].disable = true;
    sim.advance_pipeline().unwrap();
    assert_eq!(sim.pipeline.slots[0], Slot { disable: true, ..mark(0) });
    assert_eq!(sim.pipeline.slots[1], Slot { disable: true, ..mark(1) });
    assert_eq!(sim.pipeline.slots[2], Slot::default());
    assert_eq!(sim.pipeline.slots[3], mark(2));
    assert_eq!(sim.pipeline.slots[4], mark(3));
    // Only the slot that moves is asked: a held slot takes what moves into it.
    let mut sim = machine();
    for i in 0..5 {
        sim.pipeline.slots[i] = mark(i as u32);
    }
    sim.pipeline.slots[2].disable = true;
    sim.advance_pipeline().unwrap();
    assert_eq!(sim.pipeline.slots[0], Slot::default());
    assert_eq!(sim.pipeline.slots[1], mark(0));
    assert_eq!(sim.pipeline.slots[2], mark(1));
    assert_eq!(sim.pipeline.slots[3], Slot::default());
    assert_eq!(sim.pipeline.slots[4], mark(3));
}

#[test]
fn without_pipelining_one_stage_runs_in_each_cycle() {
    let mut sim = loaded("movi r1 0x5");
    sim.pipelining_enabled = false;
    for _ in 0..100 {
        sim.step().unwrap();
        assert_eq!(sim.pipeline.cur_stage, 0);
    }
    assert_eq!(sim.stats.mem_clock, 100);
    sim.step().unwrap();
    assert_eq!(sim.pipeline.cur_stage, 1);
    assert!(sim.pipeline.slots[1].valid);
    assert!(sim.pipeline.slots.iter().filter(|s| s.valid).count() == 1);
    sim.step().unwrap();
    assert_eq!(sim.pipeline.cur_stage, 2);
    assert_eq!(sim.pipeline.slots[2].instr, Instr::Addi { rs3: Register::R1, rs1: Register::R0, imm: 5 });
    assert_eq!(sim.stats.total_instrs, 0);
    sim.step().unwrap();
    assert_eq!(sim.pipeline.cur_stage, 3);
    assert_eq!(sim.pipeline.slots[3].rs3, 5);
    assert_eq!(sim.stats.total_instrs, 1);
    assert_eq!(sim.pc, VAddr(0x10000));
    sim.step().unwrap();
    assert_eq!(sim.pipeline.cur_stage, 4);
    assert_eq!(sim.pc, VAddr(0x10004));
    assert_eq!(sim.read_reg(Register::R1), 0);
    sim.step().unwrap();
    assert_eq!(sim.pipeline.cur_stage, 0);
    assert_eq!(sim.read_reg(Register::R1), 5);
    assert!(sim.pipeline.slots.iter().all(|s| !s.valid));
    assert_eq!(sim.clock, 105);
    // The next word encodes nothing: the decode stage stops the simulator.
    for _ in 0..11 {
        assert_eq!(sim.step(), Ok(()));
    }
    assert_eq!(sim.pipeline.cur_stage, 1);
    assert_eq!(sim.step(), Err(SimErr::InstrDecode));
    assert!(!sim.online);
    assert_eq!(sim.pipeline.slots[2].instr, Instr::Invalid);
}

#[test]
fn a_simulator_that_is_stopped_stays_as_it_is() {
    let mut sim = loaded("nop");
    sim.step().unwrap();
    sim.online = false;
    let slots = sim.pipeline.slots;
    let stats = sim.stats;
    for _ in 0..5 {
        assert_eq!(sim.step(), Ok(()));
    }
    assert_eq!(sim.clock, 1);
    assert_eq!(sim.pipeline.slots, slots);
    assert_eq!(sim.stats, stats);
    assert_eq!(sim.run(1000), Ok(false));
    assert_eq!(sim.clock, 1);
}

#[test]
fn a_fetch_from_nowhere_stops_the_simulator() {
    let mut sim = Simulator::new();
    assert_eq!(sim.step(), Err(SimErr::AddrTranslation));
    assert!(!sim.online);
    assert_eq!(sim.clock, 1);
    let mut sim = machine();
    sim.pipeline.pc = VAddr(0x50000);
    assert_eq!(sim.step(), Err(SimErr::Permission));
    assert!(!sim.online);
    let mut sim = machine();
    sim.pipelining_enabled = false;
    sim.pipeline.pc = VAddr(0x7000_0000);
    assert_eq!(sim.step(), Err(SimErr::AddrTranslation));
    assert!(!sim.online);
    let mut sim = machine();
    sim.pipeline.pc = VAddr(0x80002);
    let mut last = Ok(());
    for _ in 0..101 {
        last = sim.step();
    }
    assert_eq!(last, Err(SimErr::Misaligned));
    assert!(!sim.online);
    assert_eq!(sim.clock, 101);
}

/// Step through a program and hold each step against what is said of it.
fn watch(sim: &mut Simulator) -> u64 {
    let mut reached = 0u64;
    let mut branches = 0;
    for _ in 0..100_000 {
        if !sim.online {
            break;
        }
        let before = sim.pipeline.slots[2];
        let interrupt = sim.pipeline.slots[3].valid && sim.pipeline.slots[3].instr == Instr::Int0 {};
        let waited = sim.stats.mem_clock;
        let stage = sim.pipeline.cur_stage;
        let clock = sim.clock;
        let total = sim.stats.total_instrs;
        let _ = sim.step();
        assert_eq!(sim.clock, clock + 1);
        assert_eq!(sim.gen_regs[0], 0);
        let ran = if sim.pipelining_enabled { sim.stats.mem_clock == waited } else { stage == 2 };
        if ran && before.valid && before.instr.code().is_some() {
            reached += 1;
            assert_eq!(sim.stats.total_instrs, total + 1);
            let taken = match before.instr {
                Instr::Bne { .. } => before.rs3 != before.rs1,
                Instr::Beq { .. } => before.rs3 == before.rs1,
                Instr::Blt { .. } => before.rs3 < before.rs1,
                Instr::Bgt { .. } => before.rs3 > before.rs1,
                _ => false,
            };
            if taken && !interrupt {
                branches += 1;
                assert_eq!(sim.pipeline.pc.0, before.pc.0.wrapping_add(before.imm as u32));
            }
        } else {
            assert_eq!(sim.stats.total_instrs, total);
        }
    }
    assert!(!sim.online);
    assert!(branches > 0);
    assert_eq!(sim.stats.total_instrs, reached);
    reached
}

// Every line before a label counts four bytes for it, the labels too: `._out` is the
// address of the `blt`, and `._end` that of the `movi` behind the `nop`.
const BUSY: &str = "movi r1 0x4\nmovi r2 0x0\n._top\nadd r2 r2 r1\nst r2 r0 0x40\nld r3 r0 0x40\n\
                    subi r1 r1 0x1\nbeq r1 r0 ._out\n._out\njmpr ._top\n._end\nblt r0 r3 ._end\nnop\n\
                    movi r4 0x41\nstb r4 r0 0x2000\nnop\nnop";

#[test]
fn the_total_counts_what_reaches_the_execute_stage() {
    let mut sim = loaded(BUSY);
    let reached = watch(&mut sim);
    assert_eq!(sim.read_reg(Register::R2), 10);
    assert_eq!(sim.read_reg(Register::R3), 10);
    assert!(reached >= 2 + 3 * 6 + 5 + 1 + 2);
    assert_eq!(sim.read_reg(Register::R4), 0x41);
    let stats = sim.stats;
    assert!(stats.total_instrs >= stats.load_instrs + stats.store_instrs + stats.control_instrs
        + stats.arithmetic_instrs);
    assert_eq!(stats.load_instrs, 4);
    assert_eq!(stats.store_instrs, 5);
    assert_eq!(stats.control_instrs, 4 + 3 + 1);
}

#[test]
fn the_total_counts_what_reaches_the_execute_stage_without_pipelining() {
    let mut sim = loaded(BUSY);
    sim.pipelining_enabled = false;
    let reached = watch(&mut sim);
    assert_eq!(sim.read_reg(Register::R2), 10);
    assert_eq!(reached, 2 + 3 * 6 + 5 + 1 + 2);
    assert_eq!(sim.stats.arithmetic_instrs, 2 + 4 * 2 + 1);
}

#[test]
fn a_run_ends_at_a_breakpoint() {
    let mut sim =
        loaded("movi r1 0x1\nmovi r2 0x2\nmovi r3 0x3\nmovi r4 0x4\nmovi r5 0x41\nstb r5 r0 0x2000\nnop\nnop");
    // The first step is made whatever the breakpoints are; the next one is not.
    sim.breakpoints.insert(0x10000, 0);
    assert_eq!(sim.run(1_000_000), Ok(true));
    assert_eq!((sim.pc, sim.clock), (VAddr(0x10000), 1));
    assert_eq!(sim.run(1_000_000), Ok(true));
    assert_eq!((sim.pc, sim.clock), (VAddr(0x10000), 2));
    sim.breakpoints.clear();
    sim.breakpoints.insert(0x10008, 0);
    assert_eq!(sim.run(1_000_000), Ok(true));
    assert_eq!(sim.pc, VAddr(0x10008));
    assert_eq!(sim.read_reg(Register::R1), 1);
    assert_eq!(sim.read_reg(Register::R3), 0);
    let clock = sim.clock;
    assert!(clock > 100);
    assert_eq!(sim.run(0), Ok(false));
    assert_eq!(sim.clock, clock);
    assert_eq!(sim.run(1), Ok(false));
    assert_eq!(sim.clock, clock + 1);
    assert_eq!(sim.run(3), Ok(true));
    assert_eq!(sim.clock, clock + 2);
    sim.breakpoints.clear();
    assert_eq!(sim.run(3), Ok(false));
    assert_eq!(sim.clock, clock + 5);
    assert_eq!(sim.run(1_000_000), Err(SimErr::Shutdown));
    assert!(!sim.online);
    assert_eq!(sim.read_reg(Register::R4), 4);
    assert_eq!(sim.gen_regs[0], 0);
}

#[test]
fn a_run_ends_where_the_clock_ends() {
    let mut sim = loaded("nop");
    sim.clock = u32::MAX - 2;
    assert_eq!(sim.run(10), Ok(false));
    assert_eq!(sim.clock, u32::MAX);
    assert!(sim.online);
    assert_eq!(sim.run(10), Ok(false));
    assert_eq!(sim.clock, u32::MAX);
}

#[test]
fn clearing_the_caches() {
    let mut sim = machine();
    let mut reader = vec![0u8; 4];
    sim.mem_read(VAddr(0x80000), &mut reader).unwrap();
    sim.cur_cache_set = (3, 2);
    assert!(sim.mmu.cache.iter().any(|l| l.is_valid));
    sim.clear_caches();
    assert!(sim.mmu.cache.iter().all(|l| !l.is_valid));
    assert_eq!(sim.cur_cache_set, (0, 0));
    assert_eq!(sim.mmu.mem.len(), 23);
    assert_eq!(sim.map_page(VAddr(0x80000), RW), Err(SimErr::MemOverlap));
    assert_eq!(sim.map_page_from(VAddr(0x0), RW, 1), Err(SimErr::MemOverlap));
    assert_eq!(sim.map_page_from(VAddr(0x9000), RW, 1), Ok(()));
}
