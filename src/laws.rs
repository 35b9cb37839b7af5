use vstd::prelude::*;
use crate::cpu::{add2, collides, done, draw_screen, exec_spec, sprite_pixel, CPUMode, CpuModel, Fault};
use crate::instruction::Instruction;
use crate::timer::Timers;

verus! {

/// A screen of 32 rows of 64 pixels.
pub open spec fn screen_wf(screen: Seq<Seq<bool>>) -> bool {
    screen.len() == 32 && forall|r: int| 0 <= r < 32 ==> #[trigger] screen[r].len() == 64
}

/// `6xnn` makes Vx read `nn` and changes no other register; `7xnn` adds
/// `nn` to Vx modulo 256 and leaves every other register, VF included, alone.
pub proof fn lemma_set_and_add_immediate(
    m: CpuModel,
    screen: Seq<Seq<bool>>,
    keys: Seq<bool>,
    t: Timers,
    x: u8,
    nn: u8,
    rnd: u8,
)
    requires
        m.wf(),
        x < 16,
    ensures
        exec_spec(m, screen, keys, t, Instruction::SetImm(x, nn), rnd).result is Ok,
        exec_spec(m, screen, keys, t, Instruction::SetImm(x, nn), rnd).cpu.regs[x as int] == nn,
        exec_spec(m, screen, keys, t, Instruction::SetImm(x, nn), rnd).cpu.regs == m.regs.update(x as int, nn),
        exec_spec(m, screen, keys, t, Instruction::AddImm(x, nn), rnd).result is Ok,
        exec_spec(m, screen, keys, t, Instruction::AddImm(x, nn), rnd).cpu.regs
            == m.regs.update(x as int, ((m.regs[x as int] + nn) % 256) as u8),
{
}

/// `2nnn` followed by `00EE` returns to the instruction after the call,
/// with the stack depth as before, from any depth below 32.
pub proof fn lemma_call_then_return(
    m: CpuModel,
    screen: Seq<Seq<bool>>,
    keys: Seq<bool>,
    t: Timers,
    a: u16,
    rnd: u8,
)
    requires
        m.wf(),
        m.sp < 32,
    ensures
        ({
            let called = exec_spec(m, screen, keys, t, Instruction::Call(a), rnd);
            let back = exec_spec(called.cpu, called.screen, keys, called.timers, Instruction::Return, rnd);
            &&& called.result is Ok
            &&& called.cpu.pc == a
            &&& called.cpu.sp == m.sp + 1
            &&& back.result is Ok
            &&& back.cpu.pc == add2(m.pc)
            &&& back.cpu.sp == m.sp
            &&& back.cpu.regs == m.regs
            &&& back.cpu.index == m.index
            &&& back.cpu.ram == m.ram
        }),
{
}

/// The machine after `k` calls of `a` in a row, or the fault that stopped them.
pub open spec fn nested_calls(m: CpuModel, screen: Seq<Seq<bool>>, keys: Seq<bool>, t: Timers, a: u16, k: nat) -> Result<CpuModel, Fault>
    decreases k,
{
    if k == 0 {
        Ok(m)
    } else {
        match nested_calls(m, screen, keys, t, a, (k - 1) as nat) {
            Ok(prev) => {
                let e = exec_spec(prev, screen, keys, t, Instruction::Call(a), 0);
                match e.result {
                    Ok(_) => Ok(e.cpu),
                    Err(f) => Err(f),
                }
            },
            Err(f) => Err(f),
        }
    }
}

/// From an empty stack, up to 32 nested calls succeed, each one level
/// deeper; the 33rd is a stack overflow.
pub proof fn lemma_nested_calls(m: CpuModel, screen: Seq<Seq<bool>>, keys: Seq<bool>, t: Timers, a: u16, k: nat)
    requires
        m.wf(),
        m.sp == 0,
        k <= 33,
    ensures
        k <= 32 ==> (nested_calls(m, screen, keys, t, a, k) matches Ok(c) && c.sp == k && c.wf()),
        k == 33 ==> nested_calls(m, screen, keys, t, a, k) == Err::<CpuModel, Fault>(Fault::StackOverflow),
    decreases k,
{
    if k > 0 {
        lemma_nested_calls(m, screen, keys, t, a, (k - 1) as nat);
    }
}

/// The skips move on by two instructions when their condition holds and
/// by one otherwise, changing nothing else.
pub proof fn lemma_skips(
    m: CpuModel,
    screen: Seq<Seq<bool>>,
    keys: Seq<bool>,
    t: Timers,
    x: u8,
    y: u8,
    nn: u8,
    rnd: u8,
)
    requires
        m.wf(),
        x < 16,
        y < 16,
    ensures
        exec_spec(m, screen, keys, t, Instruction::SkipEqImm(x, nn), rnd)
            == done(CpuModel { pc: if m.regs[x as int] == nn { add2(add2(m.pc)) } else { add2(m.pc) }, ..m }, screen, t),
        exec_spec(m, screen, keys, t, Instruction::SkipNeImm(x, nn), rnd)
            == done(CpuModel { pc: if m.regs[x as int] != nn { add2(add2(m.pc)) } else { add2(m.pc) }, ..m }, screen, t),
        exec_spec(m, screen, keys, t, Instruction::SkipEqReg(x, y), rnd)
            == done(CpuModel { pc: if m.regs[x as int] == m.regs[y as int] { add2(add2(m.pc)) } else { add2(m.pc) }, ..m }, screen, t),
        exec_spec(m, screen, keys, t, Instruction::SkipNeReg(x, y), rnd)
            == done(CpuModel { pc: if m.regs[x as int] != m.regs[y as int] { add2(add2(m.pc)) } else { add2(m.pc) }, ..m }, screen, t),
{
}

/// `8xy6` and `8xyE` shift Vy in the `Chip8` dialect and Vx in place in
/// the `Chip48` dialect; VF gets the bit shifted out (for x other than F).
pub proof fn lemma_shift_source(
    m: CpuModel,
    screen: Seq<Seq<bool>>,
    keys: Seq<bool>,
    t: Timers,
    x: u8,
    y: u8,
    rnd: u8,
)
    requires
        m.wf(),
        x < 15,
        y < 16,
    ensures
        ({
            let src = if m.mode == CPUMode::Chip8 { m.regs[y as int] } else { m.regs[x as int] };
            let right = exec_spec(m, screen, keys, t, Instruction::Math(x, y, 6), rnd);
            let left = exec_spec(m, screen, keys, t, Instruction::Math(x, y, 0xE), rnd);
            &&& right.result is Ok
            &&& right.cpu.regs[x as int] == src / 2
            &&& right.cpu.regs[15] == src % 2
            &&& left.result is Ok
            &&& left.cpu.regs[x as int] == (src * 2) % 256
            &&& left.cpu.regs[15] == (if src >= 128 { 1int } else { 0 })
        }),
{
}

/// `Bnnn` jumps to `nnn` plus V0 in the `Chip8` dialect, and to `nnn` plus
/// the register named by the high nibble of `nnn` in the `Chip48` dialect.
pub proof fn lemma_jump_offset(m: CpuModel, screen: Seq<Seq<bool>>, keys: Seq<bool>, t: Timers, nnn: u16, rnd: u8)
    requires
        m.wf(),
        nnn < 4096,
    ensures
        m.mode == CPUMode::Chip8 ==> exec_spec(m, screen, keys, t, Instruction::JumpOffset(nnn), rnd).cpu.pc
            == nnn + m.regs[0],
        m.mode == CPUMode::Chip48 ==> exec_spec(m, screen, keys, t, Instruction::JumpOffset(nnn), rnd).cpu.pc
            == nnn + m.regs[(nnn / 256) as int],
{
}

/// Drawing a sprite twice at the same place restores the screen; the
/// second draw reports a collision exactly when the first one lit a pixel.
/// Vx and Vy must not be VF, which the first draw overwrites.
pub proof fn lemma_draw_twice(
    m: CpuModel,
    screen: Seq<Seq<bool>>,
    keys: Seq<bool>,
    t: Timers,
    x: u8,
    y: u8,
    n: u8,
    rnd: u8,
)
    requires
        m.wf(),
        screen_wf(screen),
        x < 15,
        y < 15,
        n < 16,
        m.index + n <= 4096,
    ensures
        ({
            let sx = (m.regs[x as int] % 64) as int;
            let sy = (m.regs[y as int] % 32) as int;
            let first = exec_spec(m, screen, keys, t, Instruction::Draw(x, y, n), rnd);
            let second = exec_spec(first.cpu, first.screen, keys, first.timers, Instruction::Draw(x, y, n), rnd);
            let lit_by_first = exists|r: int, c: int|
                0 <= r < 32 && 0 <= c < 64 && !screen[r][c] && #[trigger] sprite_pixel(m.ram, m.index, sx, sy, n as int, r, c);
            &&& first.result is Ok
            &&& second.result is Ok
            &&& second.screen == screen
            &&& second.cpu.regs[15] == (if lit_by_first { 1u8 } else { 0u8 })
        }),
{
    let sx = (m.regs[x as int] % 64) as int;
    let sy = (m.regs[y as int] % 32) as int;
    let first = exec_spec(m, screen, keys, t, Instruction::Draw(x, y, n), rnd);
    let s1 = first.screen;
    let s2 = draw_screen(s1, m.ram, m.index, sx, sy, n as int);
    assert(first.cpu.regs[x as int] == m.regs[x as int]);
    assert(first.cpu.regs[y as int] == m.regs[y as int]);
    assert forall|r: int| 0 <= r < 32 implies #[trigger] s2[r] == screen[r] by {
        assert(s2[r] =~= screen[r]);
    }
    assert(s2 =~= screen);
    let lit_by_first = exists|r: int, c: int|
        0 <= r < 32 && 0 <= c < 64 && !screen[r][c] && #[trigger] sprite_pixel(m.ram, m.index, sx, sy, n as int, r, c);
    if lit_by_first {
        let (r, c) = choose|r: int, c: int|
            0 <= r < 32 && 0 <= c < 64 && !screen[r][c] && #[trigger] sprite_pixel(m.ram, m.index, sx, sy, n as int, r, c);
        assert(s1[r][c]);
        assert(collides(s1, m.ram, m.index, sx, sy, n as int));
    } else {
        assert forall|r: int, c: int| 0 <= r < 32 && 0 <= c < 64 && s1[r][c] implies
            !#[trigger] sprite_pixel(m.ram, m.index, sx, sy, n as int, r, c) by {
            if sprite_pixel(m.ram, m.index, sx, sy, n as int, r, c) {
                assert(!screen[r][c]);
            }
        }
        assert(!collides(s1, m.ram, m.index, sx, sy, n as int));
    }
}

/// `Fx33` writes the hundreds, tens and ones of Vx at the index register
/// and the two bytes after it, where those fit in memory.
pub proof fn lemma_bcd_digits(m: CpuModel, screen: Seq<Seq<bool>>, keys: Seq<bool>, t: Timers, x: u8, rnd: u8)
    requires
        m.wf(),
        x < 16,
        m.index + 2 < 4096,
    ensures
        ({
            let e = exec_spec(m, screen, keys, t, Instruction::Bcd(x), rnd);
            let v = m.regs[x as int];
            let i = m.index as int;
            &&& e.result is Ok
            &&& e.cpu.ram[i] == v / 100
            &&& e.cpu.ram[i + 1] == (v / 10) % 10
            &&& e.cpu.ram[i + 2] == v % 10
            &&& forall|a: int| 0 <= a < 4096 && !(i <= a <= i + 2) ==> #[trigger] e.cpu.ram[a] == m.ram[a]
        }),
{
}

} // verus!
