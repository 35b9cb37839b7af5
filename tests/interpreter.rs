use chip8::cpu::{make_cpu, CPUMode, Fault, CPU};
use chip8::display::{make_renderer, Renderer};
use chip8::instruction::{decode, Instruction};
use chip8::rom_loader::{echo_prog, load_prog, load_test_prog};
use chip8::timer::{make_timers, Timers};

fn machine() -> (CPU, Renderer, Timers) {
    let mut cpu = make_cpu();
    cpu.init();
    (cpu, make_renderer(), make_timers())
}

fn run(cpu: &mut CPU, r: &mut Renderer, t: &mut Timers, ins: Instruction) -> Result<(), Fault> {
    cpu.execute(ins, r, t, 0)
}

fn load_at(cpu: &mut CPU, addr: u16, bytes: &[u8]) {
    for (i, b) in bytes.iter().enumerate() {
        cpu.write_memory(addr + i as u16, *b);
    }
}

#[test]
fn decode_families() {
    assert_eq!(decode(0x00E0), Some(Instruction::ClearScreen));
    assert_eq!(decode(0x00EE), Some(Instruction::Return));
    assert_eq!(decode(0x1234), Some(Instruction::Jump(0x234)));
    assert_eq!(decode(0x2ABC), Some(Instruction::Call(0xABC)));
    assert_eq!(decode(0x3A42), Some(Instruction::SkipEqImm(0xA, 0x42)));
    assert_eq!(decode(0x5AB0), Some(Instruction::SkipEqReg(0xA, 0xB)));
    assert_eq!(decode(0x8AB4), Some(Instruction::Math(0xA, 0xB, 4)));
    assert_eq!(decode(0xB3F0), Some(Instruction::JumpOffset(0x3F0)));
    assert_eq!(decode(0xD125), Some(Instruction::Draw(1, 2, 5)));
    assert_eq!(decode(0xE59E), Some(Instruction::SkipKey(5)));
    assert_eq!(decode(0xF733), Some(Instruction::Bcd(7)));
    assert_eq!(decode(0xF265), Some(Instruction::LoadRegs(2)));
}

#[test]
fn decode_rejects_unknown_patterns() {
    assert_eq!(decode(0x0123), None);
    assert_eq!(decode(0x5AB1), None);
    assert_eq!(decode(0x9AB2), None);
    assert_eq!(decode(0xE0FF), None);
    assert_eq!(decode(0xF0FF), None);
}

#[test]
fn set_then_read_and_add_wraps() {
    let (mut cpu, mut r, mut t) = machine();
    run(&mut cpu, &mut r, &mut t, Instruction::SetImm(4, 0xFF)).unwrap();
    assert_eq!(cpu.register(4), 0xFF);
    run(&mut cpu, &mut r, &mut t, Instruction::AddImm(4, 0x02)).unwrap();
    assert_eq!(cpu.register(4), 0x01);
    assert_eq!(cpu.register(0xF), 0);
    assert_eq!(cpu.prog_counter(), 4);
}

#[test]
fn call_then_return_resumes_after_call() {
    let (mut cpu, mut r, mut t) = machine();
    load_at(&mut cpu, 0x200, &[0x23, 0x00]);
    load_at(&mut cpu, 0x300, &[0x00, 0xEE]);
    cpu.set_prog_counter(0x200);
    cpu.step(&mut r, &mut t).unwrap();
    assert_eq!(cpu.prog_counter(), 0x300);
    assert_eq!(cpu.stack_depth(), 1);
    cpu.step(&mut r, &mut t).unwrap();
    assert_eq!(cpu.prog_counter(), 0x202);
    assert_eq!(cpu.stack_depth(), 0);
}

#[test]
fn thirty_third_nested_call_overflows() {
    let (mut cpu, mut r, mut t) = machine();
    load_at(&mut cpu, 0x200, &[0x22, 0x00]);
    cpu.set_prog_counter(0x200);
    for depth in 1..=32u8 {
        assert_eq!(cpu.step(&mut r, &mut t), Ok(()));
        assert_eq!(cpu.stack_depth(), depth);
    }
    assert_eq!(cpu.step(&mut r, &mut t), Err(Fault::StackOverflow));
    assert_eq!(cpu.stack_depth(), 32);
}

#[test]
fn return_on_empty_stack_underflows() {
    let (mut cpu, mut r, mut t) = machine();
    assert_eq!(run(&mut cpu, &mut r, &mut t, Instruction::Return), Err(Fault::StackUnderflow));
    assert_eq!(cpu.prog_counter(), 0);
}

#[test]
fn skips_add_two_only_when_condition_holds() {
    let (mut cpu, mut r, mut t) = machine();
    run(&mut cpu, &mut r, &mut t, Instruction::SetImm(1, 7)).unwrap();
    run(&mut cpu, &mut r, &mut t, Instruction::SetImm(2, 7)).unwrap();
    cpu.set_prog_counter(0x200);
    run(&mut cpu, &mut r, &mut t, Instruction::SkipEqImm(1, 7)).unwrap();
    assert_eq!(cpu.prog_counter(), 0x204);
    run(&mut cpu, &mut r, &mut t, Instruction::SkipEqImm(1, 8)).unwrap();
    assert_eq!(cpu.prog_counter(), 0x206);
    run(&mut cpu, &mut r, &mut t, Instruction::SkipNeImm(1, 8)).unwrap();
    assert_eq!(cpu.prog_counter(), 0x20A);
    run(&mut cpu, &mut r, &mut t, Instruction::SkipNeImm(1, 7)).unwrap();
    assert_eq!(cpu.prog_counter(), 0x20C);
    run(&mut cpu, &mut r, &mut t, Instruction::SkipEqReg(1, 2)).unwrap();
    assert_eq!(cpu.prog_counter(), 0x210);
    run(&mut cpu, &mut r, &mut t, Instruction::SkipNeReg(1, 2)).unwrap();
    assert_eq!(cpu.prog_counter(), 0x212);
}

#[test]
fn arithmetic_flags() {
    let (mut cpu, mut r, mut t) = machine();
    run(&mut cpu, &mut r, &mut t, Instruction::SetImm(0, 0xFF)).unwrap();
    run(&mut cpu, &mut r, &mut t, Instruction::SetImm(1, 0x01)).unwrap();
    run(&mut cpu, &mut r, &mut t, Instruction::Math(0, 1, 4)).unwrap();
    assert_eq!((cpu.register(0), cpu.register(0xF)), (0x00, 1));
    run(&mut cpu, &mut r, &mut t, Instruction::Math(0, 1, 5)).unwrap();
    assert_eq!((cpu.register(0), cpu.register(0xF)), (0xFF, 0));
    run(&mut cpu, &mut r, &mut t, Instruction::Math(0, 1, 5)).unwrap();
    assert_eq!((cpu.register(0), cpu.register(0xF)), (0xFE, 1));
    run(&mut cpu, &mut r, &mut t, Instruction::Math(1, 0, 7)).unwrap();
    assert_eq!((cpu.register(1), cpu.register(0xF)), (0xFD, 1));
    run(&mut cpu, &mut r, &mut t, Instruction::Math(0, 1, 1)).unwrap();
    assert_eq!(cpu.register(0), 0xFF);
    run(&mut cpu, &mut r, &mut t, Instruction::Math(0, 1, 2)).unwrap();
    assert_eq!(cpu.register(0), 0xFD);
    run(&mut cpu, &mut r, &mut t, Instruction::Math(0, 1, 3)).unwrap();
    assert_eq!(cpu.register(0), 0x00);
    assert_eq!(run(&mut cpu, &mut r, &mut t, Instruction::Math(0, 1, 8)), Err(Fault::DecodeFailure));
}

fn shift_case(mode: CPUMode, op: u8) -> (u8, u8) {
    let (mut cpu, mut r, mut t) = machine();
    cpu.set_mode(mode);
    run(&mut cpu, &mut r, &mut t, Instruction::SetImm(3, 0b1011_0110)).unwrap();
    run(&mut cpu, &mut r, &mut t, Instruction::SetImm(4, 0b0000_0001)).unwrap();
    run(&mut cpu, &mut r, &mut t, Instruction::Math(3, 4, op)).unwrap();
    (cpu.register(3), cpu.register(0xF))
}

#[test]
fn shift_source_depends_on_mode() {
    assert_eq!(shift_case(CPUMode::Chip8, 6), (0, 1));
    assert_eq!(shift_case(CPUMode::Chip48, 6), (0b0101_1011, 0));
    assert_eq!(shift_case(CPUMode::Chip8, 0xE), (2, 0));
    assert_eq!(shift_case(CPUMode::Chip48, 0xE), (0b0110_1100, 1));
}

#[test]
fn jump_offset_register_depends_on_mode() {
    for (mode, want) in [(CPUMode::Chip8, 0x3F1u16), (CPUMode::Chip48, 0x3F5u16)] {
        let (mut cpu, mut r, mut t) = machine();
        cpu.set_mode(mode);
        run(&mut cpu, &mut r, &mut t, Instruction::SetImm(0, 1)).unwrap();
        run(&mut cpu, &mut r, &mut t, Instruction::SetImm(3, 5)).unwrap();
        run(&mut cpu, &mut r, &mut t, Instruction::JumpOffset(0x3F0)).unwrap();
        assert_eq!(cpu.prog_counter(), want);
    }
}

#[test]
fn drawing_twice_restores_screen_and_reports_collision() {
    let (mut cpu, mut r, mut t) = machine();
    run(&mut cpu, &mut r, &mut t, Instruction::SetImm(0, 0)).unwrap();
    run(&mut cpu, &mut r, &mut t, Instruction::FontChar(0)).unwrap();
    assert_eq!(cpu.index_register(), 0x50);
    run(&mut cpu, &mut r, &mut t, Instruction::SetImm(1, 2)).unwrap();
    run(&mut cpu, &mut r, &mut t, Instruction::SetImm(2, 3)).unwrap();
    run(&mut cpu, &mut r, &mut t, Instruction::Draw(1, 2, 5)).unwrap();
    assert_eq!(cpu.register(0xF), 0);
    assert_eq!(r.row_bits(3), 0b1111 << 2);
    assert_eq!(r.row_bits(4), 0b1001 << 2);
    run(&mut cpu, &mut r, &mut t, Instruction::Draw(1, 2, 5)).unwrap();
    assert_eq!(cpu.register(0xF), 1);
    for row in 0..32 {
        assert_eq!(r.row_bits(row), 0);
    }
}

#[test]
fn draw_clips_at_the_edges() {
    let (mut cpu, mut r, mut t) = machine();
    run(&mut cpu, &mut r, &mut t, Instruction::SetIndex(0x50)).unwrap();
    run(&mut cpu, &mut r, &mut t, Instruction::SetImm(1, 62)).unwrap();
    run(&mut cpu, &mut r, &mut t, Instruction::SetImm(2, 30)).unwrap();
    run(&mut cpu, &mut r, &mut t, Instruction::Draw(1, 2, 5)).unwrap();
    assert_eq!(r.row_bits(30), 0b11 << 62);
    assert_eq!(r.row_bits(31), 0b01 << 62);
    assert_eq!(r.row_bits(0), 0);
    assert_eq!(r.row_bits(0) & 0b11, 0);
}

#[test]
fn draw_past_memory_end_fails() {
    let (mut cpu, mut r, mut t) = machine();
    run(&mut cpu, &mut r, &mut t, Instruction::SetIndex(0xFFE)).unwrap();
    assert_eq!(run(&mut cpu, &mut r, &mut t, Instruction::Draw(0, 0, 3)), Err(Fault::MemoryBounds));
    assert_eq!(run(&mut cpu, &mut r, &mut t, Instruction::Draw(0, 0, 2)), Ok(()));
}

#[test]
fn clear_screen_blanks_every_row() {
    let (mut cpu, mut r, mut t) = machine();
    run(&mut cpu, &mut r, &mut t, Instruction::SetIndex(0x50)).unwrap();
    run(&mut cpu, &mut r, &mut t, Instruction::Draw(0, 0, 5)).unwrap();
    assert_ne!(r.row_bits(0), 0);
    run(&mut cpu, &mut r, &mut t, Instruction::ClearScreen).unwrap();
    for row in 0..32 {
        assert_eq!(r.row_bits(row), 0);
    }
}

#[test]
fn bcd_writes_three_digits() {
    let (mut cpu, mut r, mut t) = machine();
    run(&mut cpu, &mut r, &mut t, Instruction::SetImm(5, 137)).unwrap();
    run(&mut cpu, &mut r, &mut t, Instruction::SetIndex(0x300)).unwrap();
    run(&mut cpu, &mut r, &mut t, Instruction::Bcd(5)).unwrap();
    assert_eq!(cpu.read_memory(0x300), 1);
    assert_eq!(cpu.read_memory(0x301), 3);
    assert_eq!(cpu.read_memory(0x302), 7);
    run(&mut cpu, &mut r, &mut t, Instruction::SetIndex(0xFFE)).unwrap();
    assert_eq!(run(&mut cpu, &mut r, &mut t, Instruction::Bcd(5)), Err(Fault::MemoryBounds));
}

#[test]
fn store_and_load_registers_by_mode() {
    for (mode, index_after) in [(CPUMode::Chip8, 0x303u16), (CPUMode::Chip48, 0x300u16)] {
        let (mut cpu, mut r, mut t) = machine();
        cpu.set_mode(mode);
        run(&mut cpu, &mut r, &mut t, Instruction::SetImm(0, 1)).unwrap();
        run(&mut cpu, &mut r, &mut t, Instruction::SetImm(1, 5)).unwrap();
        run(&mut cpu, &mut r, &mut t, Instruction::SetImm(2, 8)).unwrap();
        run(&mut cpu, &mut r, &mut t, Instruction::SetIndex(0x300)).unwrap();
        run(&mut cpu, &mut r, &mut t, Instruction::StoreRegs(2)).unwrap();
        assert_eq!(cpu.index_register(), index_after);
        assert_eq!([cpu.read_memory(0x300), cpu.read_memory(0x301), cpu.read_memory(0x302)], [1, 5, 8]);
        run(&mut cpu, &mut r, &mut t, Instruction::SetImm(0, 0)).unwrap();
        run(&mut cpu, &mut r, &mut t, Instruction::SetImm(1, 0)).unwrap();
        run(&mut cpu, &mut r, &mut t, Instruction::SetImm(2, 0)).unwrap();
        run(&mut cpu, &mut r, &mut t, Instruction::SetIndex(0x300)).unwrap();
        run(&mut cpu, &mut r, &mut t, Instruction::LoadRegs(2)).unwrap();
        assert_eq!([cpu.register(0), cpu.register(1), cpu.register(2)], [1, 5, 8]);
        assert_eq!(cpu.index_register(), index_after);
    }
}

#[test]
fn register_transfer_past_memory_end_fails() {
    let (mut cpu, mut r, mut t) = machine();
    run(&mut cpu, &mut r, &mut t, Instruction::SetIndex(0xFFE)).unwrap();
    assert_eq!(run(&mut cpu, &mut r, &mut t, Instruction::StoreRegs(2)), Err(Fault::MemoryBounds));
    assert_eq!(run(&mut cpu, &mut r, &mut t, Instruction::LoadRegs(2)), Err(Fault::MemoryBounds));
    assert_eq!(cpu.index_register(), 0xFFE);
}

#[test]
fn add_to_index_sets_flag_past_memory() {
    let (mut cpu, mut r, mut t) = machine();
    run(&mut cpu, &mut r, &mut t, Instruction::SetImm(0xF, 0)).unwrap();
    run(&mut cpu, &mut r, &mut t, Instruction::SetImm(1, 0x10)).unwrap();
    run(&mut cpu, &mut r, &mut t, Instruction::SetIndex(0x100)).unwrap();
    run(&mut cpu, &mut r, &mut t, Instruction::AddIndex(1)).unwrap();
    assert_eq!((cpu.index_register(), cpu.register(0xF)), (0x110, 0));
    run(&mut cpu, &mut r, &mut t, Instruction::SetIndex(0xFFF)).unwrap();
    run(&mut cpu, &mut r, &mut t, Instruction::AddIndex(1)).unwrap();
    assert_eq!((cpu.index_register(), cpu.register(0xF)), (0x100F, 1));
}

#[test]
fn font_char_points_at_glyph() {
    let (mut cpu, mut r, mut t) = machine();
    run(&mut cpu, &mut r, &mut t, Instruction::SetImm(2, 0x1A)).unwrap();
    run(&mut cpu, &mut r, &mut t, Instruction::FontChar(2)).unwrap();
    assert_eq!(cpu.index_register(), 0x50 + 0xA * 5);
    assert_eq!(cpu.read_memory(0x50), 0xF0);
    assert_eq!(cpu.read_memory(0x9F), 0x80);
}

#[test]
fn timers_are_read_and_set() {
    let (mut cpu, mut r, mut t) = machine();
    run(&mut cpu, &mut r, &mut t, Instruction::SetImm(1, 42)).unwrap();
    run(&mut cpu, &mut r, &mut t, Instruction::SetDelay(1)).unwrap();
    run(&mut cpu, &mut r, &mut t, Instruction::SetImm(1, 9)).unwrap();
    run(&mut cpu, &mut r, &mut t, Instruction::SetSound(1)).unwrap();
    assert_eq!((t.delay, t.sound), (42, 9));
    t.tick();
    run(&mut cpu, &mut r, &mut t, Instruction::GetDelay(3)).unwrap();
    assert_eq!(cpu.register(3), 41);
}

#[test]
fn key_skips_and_invalid_key() {
    let (mut cpu, mut r, mut t) = machine();
    r.set_key(7, true);
    run(&mut cpu, &mut r, &mut t, Instruction::SetImm(1, 7)).unwrap();
    cpu.set_prog_counter(0x200);
    run(&mut cpu, &mut r, &mut t, Instruction::SkipKey(1)).unwrap();
    assert_eq!(cpu.prog_counter(), 0x204);
    run(&mut cpu, &mut r, &mut t, Instruction::SkipNotKey(1)).unwrap();
    assert_eq!(cpu.prog_counter(), 0x206);
    run(&mut cpu, &mut r, &mut t, Instruction::SetImm(1, 0x20)).unwrap();
    assert_eq!(run(&mut cpu, &mut r, &mut t, Instruction::SkipKey(1)), Err(Fault::InvalidKey));
}

#[test]
fn wait_key_holds_until_pressed() {
    let (mut cpu, mut r, mut t) = machine();
    cpu.set_prog_counter(0x200);
    run(&mut cpu, &mut r, &mut t, Instruction::WaitKey(4)).unwrap();
    assert_eq!(cpu.prog_counter(), 0x200);
    r.set_key(0xC, true);
    r.set_key(0x9, true);
    run(&mut cpu, &mut r, &mut t, Instruction::WaitKey(4)).unwrap();
    assert_eq!(cpu.prog_counter(), 0x202);
    assert_eq!(cpu.register(4), 0x9);
}

#[test]
fn random_masks_the_byte() {
    let (mut cpu, mut r, mut t) = machine();
    cpu.execute(Instruction::Random(2, 0x0F), &mut r, &mut t, 0xAB).unwrap();
    assert_eq!(cpu.register(2), 0x0B);
    load_at(&mut cpu, 0x200, &[0xC3, 0x0F]);
    cpu.set_prog_counter(0x200);
    cpu.step(&mut r, &mut t).unwrap();
    assert_eq!(cpu.register(3) & 0xF0, 0);
}

#[test]
fn fetch_past_memory_end_fails() {
    let (mut cpu, mut r, mut t) = machine();
    cpu.set_prog_counter(0xFFF);
    assert_eq!(cpu.step(&mut r, &mut t), Err(Fault::MemoryBounds));
    assert_eq!(cpu.prog_counter(), 0xFFF);
}

#[test]
fn unknown_opcode_halts_without_change() {
    let (mut cpu, mut r, mut t) = machine();
    load_at(&mut cpu, 0x200, &[0xF0, 0xFF]);
    cpu.set_prog_counter(0x200);
    assert_eq!(cpu.step(&mut r, &mut t), Err(Fault::DecodeFailure));
    assert_eq!(cpu.prog_counter(), 0x200);
}

#[test]
fn jump_sets_program_counter() {
    let (mut cpu, mut r, mut t) = machine();
    load_at(&mut cpu, 0x200, &[0x14, 0x56]);
    cpu.set_prog_counter(0x200);
    cpu.step(&mut r, &mut t).unwrap();
    assert_eq!(cpu.prog_counter(), 0x456);
}

#[test]
fn load_prog_places_program_at_origin() {
    let (mut cpu, _r, _t) = machine();
    assert!(load_prog(&mut cpu, &vec![0x60, 0x01, 0x12, 0x00]));
    assert_eq!(cpu.prog_counter(), 0x200);
    assert_eq!(cpu.read_memory(0x200), 0x60);
    assert_eq!(cpu.read_memory(0x203), 0x00);
    assert!(load_prog(&mut cpu, &vec![0xAA; 4096 - 0x200]));
    cpu.set_prog_counter(0);
    assert!(!load_prog(&mut cpu, &vec![0xBB; 4096 - 0x200 + 1]));
    assert_eq!(cpu.prog_counter(), 0);
    assert_eq!(cpu.read_memory(0x200), 0xAA);
}

#[test]
fn test_prog_runs_until_its_bad_opcode() {
    let (mut cpu, mut r, mut t) = machine();
    load_test_prog(&mut cpu);
    assert_eq!(cpu.mode(), CPUMode::Chip48);
    for _ in 0..3 {
        cpu.step(&mut r, &mut t).unwrap();
    }
    assert_eq!([cpu.register(0), cpu.register(1), cpu.register(2)], [1, 5, 8]);
    assert_eq!(cpu.step(&mut r, &mut t), Err(Fault::DecodeFailure));
}

#[test]
fn echo_prog_waits_for_a_key() {
    let (mut cpu, mut r, mut t) = machine();
    echo_prog(&mut cpu);
    cpu.step(&mut r, &mut t).unwrap();
    assert_eq!(cpu.prog_counter(), 0x200);
    r.set_key(3, true);
    for _ in 0..4 {
        cpu.step(&mut r, &mut t).unwrap();
    }
    assert_eq!(cpu.prog_counter(), 0x208);
    assert_eq!(cpu.index_register(), 0x50 + 15);
    cpu.step(&mut r, &mut t).unwrap();
    assert_eq!(cpu.prog_counter(), 0x200);
}

#[test]
fn init_resets_registers_and_keeps_mode() {
    let (mut cpu, mut r, mut t) = machine();
    cpu.set_mode(CPUMode::Chip48);
    run(&mut cpu, &mut r, &mut t, Instruction::SetImm(1, 9)).unwrap();
    run(&mut cpu, &mut r, &mut t, Instruction::Call(0x400)).unwrap();
    cpu.init();
    assert_eq!(cpu.register(1), 0);
    assert_eq!(cpu.stack_depth(), 0);
    assert_eq!(cpu.prog_counter(), 0);
    assert_eq!(cpu.mode(), CPUMode::Chip48);
}
