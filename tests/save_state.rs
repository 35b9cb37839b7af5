use chip8::cpu::{make_cpu, CPUMode, CPU};
use chip8::display::{make_renderer, Renderer};
use chip8::instruction::Instruction;
use chip8::save::{from_bytes, make_save, LoadError, SAVE_BUFFER_SIZE, SAVE_STATE_LEN};
use chip8::timer::{make_timers, Timers};

fn busy_machine() -> (CPU, Renderer, Timers) {
    let mut cpu = make_cpu();
    cpu.init();
    let mut r = make_renderer();
    let mut t = make_timers();
    cpu.set_mode(CPUMode::Chip48);
    for x in 0..16u8 {
        cpu.execute(Instruction::SetImm(x, x.wrapping_mul(17).wrapping_add(3)), &mut r, &mut t, 0).unwrap();
    }
    cpu.execute(Instruction::SetIndex(0xABC), &mut r, &mut t, 0).unwrap();
    cpu.set_prog_counter(0x1234);
    cpu.execute(Instruction::Call(0x300), &mut r, &mut t, 0).unwrap();
    cpu.execute(Instruction::Call(0x400), &mut r, &mut t, 0).unwrap();
    cpu.write_memory(0x7FF, 0x5A);
    r.draw(0, 0);
    r.draw(63, 0);
    r.draw(9, 31);
    t.delay = 33;
    t.sound = 250;
    (cpu, r, t)
}

fn same_state(a: &CPU, b: &CPU) {
    assert_eq!(a.prog_counter(), b.prog_counter());
    assert_eq!(a.index_register(), b.index_register());
    assert_eq!(a.stack_depth(), b.stack_depth());
    assert_eq!(a.mode(), b.mode());
    for x in 0..16u8 {
        assert_eq!(a.register(x), b.register(x));
    }
    assert_eq!(a.memory(), b.memory());
}

#[test]
fn save_then_load_gives_back_the_same_machine() {
    let (cpu, renderer, timers) = busy_machine();
    let mut save = make_save();
    save.build(&cpu, &renderer, &timers);
    let bytes: Vec<u8> = save.as_bytes()[..SAVE_STATE_LEN].to_vec();
    let mut restored_save = from_bytes(&bytes).unwrap();
    let mut restored = make_cpu();
    let mut restored_renderer = make_renderer();
    let mut restored_timers = make_timers();
    assert_eq!(restored_save.load(&mut restored, &mut restored_renderer, &mut restored_timers), Ok(()));
    same_state(&cpu, &restored);
    assert_eq!(restored_timers, timers);
    for row in 0..32 {
        assert_eq!(restored_renderer.row_bits(row), renderer.row_bits(row));
    }
    assert_eq!(restored_renderer.row_bits(0), 1 | (1 << 63));
    let mut r = make_renderer();
    let mut t = restored_timers;
    restored.execute(Instruction::Return, &mut r, &mut t, 0).unwrap();
    assert_eq!(restored.prog_counter(), 0x302);
}

#[test]
fn save_layout_is_fixed() {
    let (cpu, renderer, timers) = busy_machine();
    let mut save = make_save();
    save.build(&cpu, &renderer, &timers);
    let b = save.as_bytes();
    assert_eq!(b.len(), SAVE_BUFFER_SIZE);
    assert_eq!(b[0x50], 0xF0);
    assert_eq!(b[0x7FF], 0x5A);
    assert_eq!(&b[4096..4100], &[0x00, 0x04, 0xBC, 0x0A]);
    assert_eq!(b[4100], 3);
    assert_eq!(&b[4116..4120], &[0x34, 0x12, 0x00, 0x03]);
    assert_eq!(b[4180], 2);
    assert_eq!(b[4181], 1);
    assert_eq!(&b[4182..4184], &[33, 250]);
    assert_eq!(&b[4184..4192], &[0x01, 0, 0, 0, 0, 0, 0, 0x80]);
    assert_eq!(&b[4192..4432], &[0u8; 240][..]);
    assert_eq!(&b[4432..4440], &[0x00, 0x02, 0, 0, 0, 0, 0, 0]);
    assert_eq!(b[4440], 0);
}

#[test]
fn read_u16_is_low_byte_first() {
    let mut save = make_save();
    save.write(0x34);
    save.write(0x12);
    save.write(0x99);
    assert_eq!(save.read_u16(), 0x1234);
    assert_eq!(save.read(), 0x99);
}

#[test]
fn bad_mode_byte_is_rejected() {
    let (cpu, renderer, timers) = busy_machine();
    let mut save = make_save();
    save.build(&cpu, &renderer, &timers);
    let mut bytes = save.as_bytes().clone();
    bytes[4181] = 2;
    let mut broken = from_bytes(&bytes).unwrap();
    let mut target = make_cpu();
    let mut target_renderer = make_renderer();
    let mut t = make_timers();
    assert_eq!(broken.load(&mut target, &mut target_renderer, &mut t), Err(LoadError::BadMode));
    assert_eq!(target.mode(), CPUMode::Chip8);
    assert_eq!(target.memory()[0x50], 0);
    assert_eq!(target_renderer.row_bits(0), 0);
}

#[test]
fn bad_stack_depth_is_rejected() {
    let (cpu, renderer, timers) = busy_machine();
    let mut save = make_save();
    save.build(&cpu, &renderer, &timers);
    let mut bytes = save.as_bytes().clone();
    bytes[4180] = 33;
    let mut broken = from_bytes(&bytes).unwrap();
    let mut target = make_cpu();
    let mut target_renderer = make_renderer();
    let mut t = make_timers();
    assert_eq!(broken.load(&mut target, &mut target_renderer, &mut t), Err(LoadError::BadStackDepth));
}

#[test]
fn wrong_sized_buffers_are_rejected() {
    assert_eq!(from_bytes(&vec![0; SAVE_STATE_LEN - 1]).err(), Some(LoadError::Truncated));
    assert_eq!(from_bytes(&vec![0; SAVE_BUFFER_SIZE + 1]).err(), Some(LoadError::TooLarge));
    assert!(from_bytes(&vec![0; SAVE_BUFFER_SIZE]).is_ok());
}
