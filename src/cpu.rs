use vstd::prelude::*;
use crate::display::{any_pressed, blank_screen, first_pressed_from, Renderer};
use crate::instruction::{decode, decode_spec, fields_in_range, Instruction};
use crate::save::{decode_cpu, encode_cpu, le16, read_le16, stack_bytes, LoadError, Save, CPU_STATE_LEN, SAVE_BUFFER_SIZE};
use crate::timer::Timers;

verus! {

pub const RAM_SIZE: usize = 4096;
/// Where programs are loaded; 0x000..0x1FF is reserved for the interpreter.
pub const PROG_MEM_START_OFFSET: u16 = 0x200;
/// Where the sixteen font glyphs start (0x050..0x09F).
pub const FONT_SPRITES_START_OFFSET: u16 = 0x050;
pub const MAX_STACK_SIZE: usize = 32;
pub const REGISTER_COUNT: usize = 16;

/// The dialect whose semantics the interpreter follows where the two differ.
#[derive(Debug, PartialEq, Eq, Structural, Clone, Copy)]
pub enum CPUMode {
    Chip8,
    Chip48,
}

/// Why the interpreter stopped at an instruction. The stack faults mean a
/// malformed program and are fatal to the driver; the others halt the
/// engine with the machine state left as it was.
#[derive(Debug, PartialEq, Eq, Structural, Clone, Copy)]
pub enum Fault {
    /// No operation has this bit pattern, or an `8xyN` with an unknown `N`.
    DecodeFailure,
    /// An access at or past the end of memory: the fetch, a sprite read, or
    /// the range of `Fx33`, `Fx55` or `Fx65`.
    MemoryBounds,
    /// A call with all 32 return slots taken.
    StackOverflow,
    /// A return with no return address on the stack.
    StackUnderflow,
    /// A key test on a register that holds no key value (above 15).
    InvalidKey,
}

/// The machine state as mathematical values.
pub struct CpuModel {
    pub pc: u16,
    pub index: u16,
    pub regs: Seq<u8>,
    pub stack: Seq<u16>,
    pub sp: u8,
    pub mode: CPUMode,
    pub ram: Seq<u8>,
}

impl CpuModel {
    pub open spec fn wf(self) -> bool {
        &&& self.regs.len() == 16
        &&& self.stack.len() == 32
        &&& self.sp <= 32
        &&& self.ram.len() == 4096
    }
}

/// Everything one instruction produces: its result and the new machine
/// state, screen and timers.
pub struct Effect {
    pub result: Result<(), Fault>,
    pub cpu: CpuModel,
    pub screen: Seq<Seq<bool>>,
    pub timers: Timers,
}

/// The program counter moved on by one instruction (two bytes), wrapping
/// at 16 bits.
pub open spec fn add2(p: u16) -> u16 {
    ((p + 2) % 0x10000) as u16
}

pub open spec fn advance(m: CpuModel) -> CpuModel {
    CpuModel { pc: add2(m.pc), ..m }
}

/// Moves on by one instruction, or by two when `cond` holds.
pub open spec fn skip_if(m: CpuModel, cond: bool) -> CpuModel {
    CpuModel { pc: if cond { add2(add2(m.pc)) } else { add2(m.pc) }, ..m }
}

pub open spec fn with_reg(m: CpuModel, x: u8, v: u8) -> CpuModel {
    CpuModel { regs: m.regs.update(x as int, v), ..m }
}

pub open spec fn done(m: CpuModel, screen: Seq<Seq<bool>>, t: Timers) -> Effect {
    Effect { result: Ok(()), cpu: m, screen, timers: t }
}

pub open spec fn fault(f: Fault, m: CpuModel, screen: Seq<Seq<bool>>, t: Timers) -> Effect {
    Effect { result: Err(f), cpu: m, screen, timers: t }
}

/// The registers after `8xyN`; `None` for a sub-operation that does not exist.
pub open spec fn math_spec(regs: Seq<u8>, mode: CPUMode, x: u8, y: u8, op: u8) -> Option<Seq<u8>> {
    let vx = regs[x as int];
    let vy = regs[y as int];
    let src = if mode == CPUMode::Chip8 { vy } else { vx };
    if op == 0 {
        Some(regs.update(x as int, vy))
    } else if op == 1 {
        Some(regs.update(x as int, vx | vy))
    } else if op == 2 {
        Some(regs.update(x as int, vx & vy))
    } else if op == 3 {
        Some(regs.update(x as int, vx ^ vy))
    } else if op == 4 {
        Some(regs.update(x as int, ((vx + vy) % 256) as u8).update(15, if vx + vy > 255 { 1 } else { 0 }))
    } else if op == 5 {
        Some(regs.update(x as int, ((vx - vy + 256) % 256) as u8).update(15, if vx >= vy { 1 } else { 0 }))
    } else if op == 7 {
        Some(regs.update(x as int, ((vy - vx + 256) % 256) as u8).update(15, if vy >= vx { 1 } else { 0 }))
    } else if op == 6 {
        Some(regs.update(x as int, src / 2).update(15, src % 2))
    } else if op == 0xE {
        Some(regs.update(x as int, ((src * 2) % 256) as u8).update(15, if src >= 128 { 1 } else { 0 }))
    } else {
        None
    }
}

/// The register whose value `Bnnn` adds to `nnn`.
pub open spec fn offset_register(mode: CPUMode, nnn: u16) -> int {
    if mode == CPUMode::Chip48 { ((nnn / 256) % 16) as int } else { 0 }
}

/// Bit `j` of a sprite row, counting from the most significant bit.
pub open spec fn sprite_bit(b: u8, j: int) -> bool {
    (b >> ((7 - j) as u8)) & 1u8 == 1u8
}

/// Whether the sprite of height `n` read from `ram[index..]` and drawn with
/// its top left corner at (`sx`, `sy`) covers pixel (`c`, `r`). Nothing wraps.
pub open spec fn sprite_pixel(ram: Seq<u8>, index: u16, sx: int, sy: int, n: int, r: int, c: int) -> bool {
    &&& sy <= r < sy + n
    &&& sx <= c < sx + 8
    &&& sprite_bit(ram[index + r - sy], c - sx)
}

/// The screen with every pixel under the sprite toggled.
pub open spec fn draw_screen(screen: Seq<Seq<bool>>, ram: Seq<u8>, index: u16, sx: int, sy: int, n: int) -> Seq<Seq<bool>> {
    Seq::new(32, |r: int| Seq::new(64, |c: int| screen[r][c] != sprite_pixel(ram, index, sx, sy, n, r, c)))
}

/// Whether the sprite turns off a pixel that was lit.
pub open spec fn collides(screen: Seq<Seq<bool>>, ram: Seq<u8>, index: u16, sx: int, sy: int, n: int) -> bool {
    exists|r: int, c: int|
        0 <= r < 32 && 0 <= c < 64 && screen[r][c] && #[trigger] sprite_pixel(ram, index, sx, sy, n, r, c)
}

/// Whether pixel (`c`, `r`) has been reached after sprite rows `0..row`
/// and, in row `row`, columns `0..j`.
pub open spec fn drawn_before(sx: int, sy: int, row: int, j: int, r: int, c: int) -> bool {
    r < sy + row || (r == sy + row && c < sx + j)
}

/// Memory after writing the three decimal digits of `v` at `at`.
pub open spec fn bcd_ram(ram: Seq<u8>, at: int, v: u8) -> Seq<u8> {
    ram.update(at, v / 100).update(at + 1, (v / 10) % 10).update(at + 2, v % 10)
}

/// The index register after `Fx55` / `Fx65` over V0..=Vx.
pub open spec fn index_after_transfer(m: CpuModel, x: u8) -> u16 {
    if m.mode == CPUMode::Chip8 { (m.index + x + 1) as u16 } else { m.index }
}

/// What one instruction does. `keys` is the key state, `rnd` the random
/// byte that `Cxnn` masks.
pub open spec fn exec_spec(
    m: CpuModel,
    screen: Seq<Seq<bool>>,
    keys: Seq<bool>,
    t: Timers,
    ins: Instruction,
    rnd: u8,
) -> Effect {
    match ins {
        Instruction::ClearScreen => done(advance(m), blank_screen(), t),
        Instruction::Return => if m.sp == 0 {
            fault(Fault::StackUnderflow, m, screen, t)
        } else {
            done(CpuModel { pc: add2(m.stack[m.sp - 1]), sp: (m.sp - 1) as u8, ..m }, screen, t)
        },
        Instruction::Jump(a) => done(CpuModel { pc: a, ..m }, screen, t),
        Instruction::Call(a) => if m.sp >= 32 {
            fault(Fault::StackOverflow, m, screen, t)
        } else {
            done(CpuModel { stack: m.stack.update(m.sp as int, m.pc), sp: (m.sp + 1) as u8, pc: a, ..m }, screen, t)
        },
        Instruction::SkipEqImm(x, nn) => done(skip_if(m, m.regs[x as int] == nn), screen, t),
        Instruction::SkipNeImm(x, nn) => done(skip_if(m, m.regs[x as int] != nn), screen, t),
        Instruction::SkipEqReg(x, y) => done(skip_if(m, m.regs[x as int] == m.regs[y as int]), screen, t),
        Instruction::SkipNeReg(x, y) => done(skip_if(m, m.regs[x as int] != m.regs[y as int]), screen, t),
        Instruction::SetImm(x, nn) => done(advance(with_reg(m, x, nn)), screen, t),
        Instruction::AddImm(x, nn) => done(advance(with_reg(m, x, ((m.regs[x as int] + nn) % 256) as u8)), screen, t),
        Instruction::Math(x, y, op) => match math_spec(m.regs, m.mode, x, y, op) {
            Some(regs) => done(advance(CpuModel { regs, ..m }), screen, t),
            None => fault(Fault::DecodeFailure, m, screen, t),
        },
        Instruction::SetIndex(a) => done(advance(CpuModel { index: a, ..m }), screen, t),
        Instruction::JumpOffset(a) => done(
            CpuModel { pc: (a + m.regs[offset_register(m.mode, a)]) as u16, ..m },
            screen,
            t,
        ),
        Instruction::Random(x, nn) => done(advance(with_reg(m, x, rnd & nn)), screen, t),
        Instruction::Draw(x, y, n) => if n > 0 && m.index + n > 4096 {
            fault(Fault::MemoryBounds, m, screen, t)
        } else {
            let sx = (m.regs[x as int] % 64) as int;
            let sy = (m.regs[y as int] % 32) as int;
            done(
                advance(with_reg(m, 15, if collides(screen, m.ram, m.index, sx, sy, n as int) { 1 } else { 0 })),
                draw_screen(screen, m.ram, m.index, sx, sy, n as int),
                t,
            )
        },
        Instruction::SkipKey(x) => if m.regs[x as int] >= 16 {
            fault(Fault::InvalidKey, m, screen, t)
        } else {
            done(skip_if(m, keys[m.regs[x as int] as int]), screen, t)
        },
        Instruction::SkipNotKey(x) => if m.regs[x as int] >= 16 {
            fault(Fault::InvalidKey, m, screen, t)
        } else {
            done(skip_if(m, !keys[m.regs[x as int] as int]), screen, t)
        },
        Instruction::GetDelay(x) => done(advance(with_reg(m, x, t.delay)), screen, t),
        Instruction::SetDelay(x) => done(advance(m), screen, Timers { delay: m.regs[x as int], ..t }),
        Instruction::SetSound(x) => done(advance(m), screen, Timers { sound: m.regs[x as int], ..t }),
        Instruction::AddIndex(x) => {
            let sum = m.index + m.regs[x as int];
            let index = (sum % 0x10000) as u16;
            let flag = sum >= 0x10000 || index >= 4096;
            done(
                advance(CpuModel { index, regs: if flag { m.regs.update(15, 1) } else { m.regs }, ..m }),
                screen,
                t,
            )
        },
        Instruction::WaitKey(x) => if any_pressed(keys) {
            done(advance(with_reg(m, x, first_pressed_from(keys, 0))), screen, t)
        } else {
            done(m, screen, t)
        },
        Instruction::FontChar(x) => done(
            advance(CpuModel { index: (0x50 + (m.regs[x as int] % 16) * 5) as u16, ..m }),
            screen,
            t,
        ),
        Instruction::Bcd(x) => if m.index + 2 >= 4096 {
            fault(Fault::MemoryBounds, m, screen, t)
        } else {
            done(advance(CpuModel { ram: bcd_ram(m.ram, m.index as int, m.regs[x as int]), ..m }), screen, t)
        },
        Instruction::StoreRegs(x) => if m.index + x >= 4096 {
            fault(Fault::MemoryBounds, m, screen, t)
        } else {
            done(
                advance(CpuModel {
                    ram: Seq::new(m.ram.len(), |a: int|
                        if m.index <= a <= m.index + x { m.regs[a - m.index] } else { m.ram[a] }),
                    index: index_after_transfer(m, x),
                    ..m
                }),
                screen,
                t,
            )
        },
        Instruction::LoadRegs(x) => if m.index + x >= 4096 {
            fault(Fault::MemoryBounds, m, screen, t)
        } else {
            done(
                advance(CpuModel {
                    regs: Seq::new(m.regs.len(), |r: int| if r <= x { m.ram[m.index + r] } else { m.regs[r] }),
                    index: index_after_transfer(m, x),
                    ..m
                }),
                screen,
                t,
            )
        },
    }
}

/// Which way `Fx55` / `Fx65` move values between registers and memory.
#[derive(Debug, PartialEq, Eq, Structural, Clone, Copy)]
pub enum RegisterRWMode {
    Read,
    Write,
}

/// The interpreter's machine state: program counter, index register, the
/// sixteen registers, the return stack, the dialect, and memory.
#[derive(Debug)]
pub struct CPU {
    pc: u16,
    index: u16,
    registers: Vec<u8>,
    stack: Vec<u16>,
    sp: u8,
    mode: CPUMode,
    ram: Vec<u8>,
}

impl View for CPU {
    type V = CpuModel;

    closed spec fn view(&self) -> CpuModel {
        CpuModel {
            pc: self.pc,
            index: self.index,
            regs: self.registers@,
            stack: self.stack@,
            sp: self.sp,
            mode: self.mode,
            ram: self.ram@,
        }
    }
}

impl CPU {
    pub open spec fn wf(&self) -> bool {
        self@.wf()
    }

    pub fn set_prog_counter(&mut self, pc: u16)
        requires
            old(self).wf(),
        ensures
            final(self).wf(),
            final(self)@ == (CpuModel { pc, ..old(self)@ }),
    {
        self.pc = pc;
    }

    pub fn prog_counter(&self) -> (r: u16)
        ensures
            r == self@.pc,
    {
        self.pc
    }

    pub fn set_mode(&mut self, mode: CPUMode)
        requires
            old(self).wf(),
        ensures
            final(self).wf(),
            final(self)@ == (CpuModel { mode, ..old(self)@ }),
    {
        self.mode = mode;
    }

    pub fn mode(&self) -> (r: CPUMode)
        ensures
            r == self@.mode,
    {
        self.mode
    }

    pub fn index_register(&self) -> (r: u16)
        ensures
            r == self@.index,
    {
        self.index
    }

    /// How many return addresses are on the stack.
    pub fn stack_depth(&self) -> (r: u8)
        ensures
            r == self@.sp,
    {
        self.sp
    }

    /// The value of register `x` (0..=15).
    pub fn register(&self, x: u8) -> (r: u8)
        requires
            self.wf(),
            x < 16,
        ensures
            r == self@.regs[x as int],
    {
        self.registers[x as usize]
    }

    /// The byte at `addr` (below 4096).
    pub fn read_memory(&self, addr: u16) -> (r: u8)
        requires
            self.wf(),
            addr < 4096,
        ensures
            r == self@.ram[addr as int],
    {
        self.ram[addr as usize]
    }

    /// Stores `b` at `addr` (below 4096).
    pub fn write_memory(&mut self, addr: u16, b: u8)
        requires
            old(self).wf(),
            addr < 4096,
        ensures
            final(self).wf(),
            final(self)@ == (CpuModel { ram: old(self)@.ram.update(addr as int, b), ..old(self)@ }),
    {
        self.ram.set(addr as usize, b);
    }

    fn set_register(&mut self, x: u8, v: u8)
        requires
            old(self).wf(),
            x < 16,
        ensures
            final(self).wf(),
            final(self)@ == with_reg(old(self)@, x, v),
    {
        self.registers.set(x as usize, v);
    }

    fn advance_pc(&mut self)
        requires
            old(self).wf(),
        ensures
            final(self).wf(),
            final(self)@ == advance(old(self)@),
    {
        self.pc = self.pc.wrapping_add(2);
    }

    fn skip_next_if(&mut self, cond: bool)
        requires
            old(self).wf(),
        ensures
            final(self).wf(),
            final(self)@ == skip_if(old(self)@, cond),
    {
        if cond {
            self.pc = self.pc.wrapping_add(2);
        }
        self.pc = self.pc.wrapping_add(2);
    }

    fn stack_push(&mut self, n: u16)
        requires
            old(self).wf(),
            old(self)@.sp < 32,
        ensures
            final(self).wf(),
            final(self)@ == (CpuModel {
                stack: old(self)@.stack.update(old(self)@.sp as int, n),
                sp: (old(self)@.sp + 1) as u8,
                ..old(self)@
            }),
    {
        self.stack.set(self.sp as usize, n);
        self.sp += 1;
    }

    fn stack_pop(&mut self) -> (r: u16)
        requires
            old(self).wf(),
            old(self)@.sp > 0,
        ensures
            final(self).wf(),
            r == old(self)@.stack[old(self)@.sp - 1],
            final(self)@ == (CpuModel { sp: (old(self)@.sp - 1) as u8, ..old(self)@ }),
    {
        self.sp -= 1;
        self.stack[self.sp as usize]
    }

    /// Runs `8xyN`; false, with nothing changed, for an unknown `N`.
    fn handle_math_ops(&mut self, reg_x: u8, reg_y: u8, op: u8) -> (r: bool)
        requires
            old(self).wf(),
            reg_x < 16,
            reg_y < 16,
        ensures
            final(self).wf(),
            r == math_spec(old(self)@.regs, old(self)@.mode, reg_x, reg_y, op) is Some,
            r ==> final(self)@ == (CpuModel {
                regs: math_spec(old(self)@.regs, old(self)@.mode, reg_x, reg_y, op)->Some_0,
                ..old(self)@
            }),
            !r ==> final(self)@ == old(self)@,
    {
        let x = reg_x as usize;
        let vx = self.registers[x];
        let vy = self.registers[reg_y as usize];
        let src = if self.mode == CPUMode::Chip8 { vy } else { vx };
        if op == 0 {
            self.registers.set(x, vy);
        } else if op == 1 {
            self.registers.set(x, vx | vy);
        } else if op == 2 {
            self.registers.set(x, vx & vy);
        } else if op == 3 {
            self.registers.set(x, vx ^ vy);
        } else if op == 4 {
            let sum = vx as u16 + vy as u16;
            self.registers.set(x, (sum % 256) as u8);
            self.registers.set(15, if sum > 255 { 1 } else { 0 });
        } else if op == 5 {
            let no_borrow = vx >= vy;
            self.registers.set(x, ((vx as u16 + 256 - vy as u16) % 256) as u8);
            self.registers.set(15, if no_borrow { 1 } else { 0 });
        } else if op == 7 {
            let no_borrow = vy >= vx;
            self.registers.set(x, ((vy as u16 + 256 - vx as u16) % 256) as u8);
            self.registers.set(15, if no_borrow { 1 } else { 0 });
        } else if op == 6 {
            self.registers.set(x, src / 2);
            self.registers.set(15, src % 2);
        } else if op == 0xE {
            self.registers.set(x, ((src as u16 * 2) % 256) as u8);
            self.registers.set(15, if src >= 128 { 1 } else { 0 });
        } else {
            return false;
        }
        true
    }

    /// `Fx55` (`Write`) / `Fx65` (`Read`): moves V0..=V`last` to or from
    /// memory at the index register; false, with nothing changed, where that
    /// range passes the end of memory.
    fn register_rw(&mut self, last: u8, mode: RegisterRWMode) -> (r: bool)
        requires
            old(self).wf(),
            last < 16,
        ensures
            final(self).wf(),
            r == (old(self)@.index + last < 4096),
            !r ==> final(self)@ == old(self)@,
            r && mode == RegisterRWMode::Write ==> final(self)@ == (CpuModel {
                ram: Seq::new(4096, |a: int|
                    if old(self)@.index <= a <= old(self)@.index + last {
                        old(self)@.regs[a - old(self)@.index]
                    } else {
                        old(self)@.ram[a]
                    }),
                index: index_after_transfer(old(self)@, last),
                ..old(self)@
            }),
            r && mode == RegisterRWMode::Read ==> final(self)@ == (CpuModel {
                regs: Seq::new(16, |k: int| if k <= last { old(self)@.ram[old(self)@.index + k] } else { old(self)@.regs[k] }),
                index: index_after_transfer(old(self)@, last),
                ..old(self)@
            }),
    {
        let start = self.index as usize;
        if start + last as usize >= RAM_SIZE {
            return false;
        }
        let ghost m = self@;
        let mut k: usize = 0;
        while k <= last as usize
            invariant
                self.wf(),
                m.wf(),
                0 <= k <= last + 1,
                last < 16,
                start == m.index,
                start + last < 4096,
                self@.pc == m.pc,
                self@.index == m.index,
                self@.stack == m.stack,
                self@.sp == m.sp,
                self@.mode == m.mode,
                mode == RegisterRWMode::Write ==> self@.regs == m.regs,
                mode == RegisterRWMode::Write ==> forall|a: int| 0 <= a < 4096 ==>
                    #[trigger] self@.ram[a] == if start <= a < start + k { m.regs[a - start] } else { m.ram[a] },
                mode == RegisterRWMode::Read ==> self@.ram == m.ram,
                mode == RegisterRWMode::Read ==> forall|j: int| 0 <= j < 16 ==>
                    #[trigger] self@.regs[j] == if j < k { m.ram[start + j] } else { m.regs[j] },
            decreases last + 1 - k,
        {
            if mode == RegisterRWMode::Write {
                let v = self.registers[k];
                self.ram.set(start + k, v);
            } else {
                let v = self.ram[start + k];
                self.registers.set(k, v);
            }
            k += 1;
        }
        if self.mode == CPUMode::Chip8 {
            self.index = (start + k) as u16;
        }
        proof {
            if mode == RegisterRWMode::Write {
                assert(self@.ram =~= Seq::new(4096, |a: int|
                    if m.index <= a <= m.index + last { m.regs[a - m.index] } else { m.ram[a] }));
            } else {
                assert(self@.regs =~= Seq::new(16, |j: int| if j <= last { m.ram[m.index + j] } else { m.regs[j] }));
            }
        }
        true
    }

    /// `Dxyn`: toggles the sprite of height `n` read from memory at the
    /// index register onto the screen at (Vx mod 64, Vy mod 32), clipping at
    /// the edges; VF ends as 1 when a lit pixel was turned off, else 0.
    fn handle_draw(&mut self, renderer: &mut Renderer, x: u8, y: u8, n: u8) -> (r: Result<(), Fault>)
        requires
            old(self).wf(),
            old(renderer).wf(),
            x < 16,
            y < 16,
            n < 16,
        ensures
            final(self).wf(),
            final(renderer).wf(),
            final(renderer).keys() == old(renderer).keys(),
            ({
                let m = old(self)@;
                let sx = (m.regs[x as int] % 64) as int;
                let sy = (m.regs[y as int] % 32) as int;
                if n > 0 && m.index + n > 4096 {
                    r == Err::<(), Fault>(Fault::MemoryBounds) && final(self)@ == m
                        && final(renderer).screen() == old(renderer).screen()
                } else {
                    &&& r == Ok::<(), Fault>(())
                    &&& final(self)@ == with_reg(m, 15, if collides(old(renderer).screen(), m.ram, m.index, sx, sy, n as int) { 1 } else { 0 })
                    &&& final(renderer).screen() == draw_screen(old(renderer).screen(), m.ram, m.index, sx, sy, n as int)
                }
            }),
    {
        if n > 0 && self.index as usize + n as usize > RAM_SIZE {
            return Err(Fault::MemoryBounds);
        }
        let ghost m = self@;
        let ghost before = renderer.screen();
        let sx = self.registers[x as usize] % 64;
        let sy = self.registers[y as usize] % 32;
        let ghost gsx = sx as int;
        let ghost gsy = sy as int;
        self.registers.set(15, 0);
        let mut collided = false;
        let mut row: u8 = 0;
        while row < n
            invariant
                self.wf(),
                renderer.wf(),
                renderer.keys() == old(renderer).keys(),
                before == old(renderer).screen(),
                m == old(self)@,
                self@ == with_reg(m, 15, 0),
                n < 16,
                0 <= row <= n,
                sx < 64,
                sy < 32,
                gsx == sx,
                gsy == sy,
                n == 0 || m.index + n <= 4096,
                forall|r: int, c: int| 0 <= r < 32 && 0 <= c < 64 ==> #[trigger] renderer.screen()[r][c]
                    == (before[r][c] != (sprite_pixel(m.ram, m.index, gsx, gsy, n as int, r, c)
                        && drawn_before(gsx, gsy, row as int, 0, r, c))),
                collided ==> collides(before, m.ram, m.index, gsx, gsy, n as int),
                !collided ==> forall|r: int, c: int| 0 <= r < 32 && 0 <= c < 64 && before[r][c]
                    && drawn_before(gsx, gsy, row as int, 0, r, c)
                    ==> !#[trigger] sprite_pixel(m.ram, m.index, gsx, gsy, n as int, r, c),
            decreases n - row,
        {
            let sprite = self.ram[self.index as usize + row as usize];
            let mut j: u8 = 0;
            while j < 8
                invariant
                    self.wf(),
                    renderer.wf(),
                    renderer.keys() == old(renderer).keys(),
                    before == old(renderer).screen(),
                    m == old(self)@,
                    self@ == with_reg(m, 15, 0),
                    n < 16,
                    0 <= row < n,
                    0 <= j <= 8,
                    sx < 64,
                    sy < 32,
                    gsx == sx,
                    gsy == sy,
                    m.index + n <= 4096,
                    sprite == m.ram[m.index + row],
                    forall|r: int, c: int| 0 <= r < 32 && 0 <= c < 64 ==> #[trigger] renderer.screen()[r][c]
                        == (before[r][c] != (sprite_pixel(m.ram, m.index, gsx, gsy, n as int, r, c)
                            && drawn_before(gsx, gsy, row as int, j as int, r, c))),
                    collided ==> collides(before, m.ram, m.index, gsx, gsy, n as int),
                    !collided ==> forall|r: int, c: int| 0 <= r < 32 && 0 <= c < 64 && before[r][c]
                        && drawn_before(gsx, gsy, row as int, j as int, r, c)
                        ==> !#[trigger] sprite_pixel(m.ram, m.index, gsx, gsy, n as int, r, c),
                decreases 8 - j,
            {
                let px = sx + j;
                let py = sy + row;
                let ghost pr = py as int;
                let ghost pc = px as int;
                let bit = (sprite >> (7 - j)) & 1 == 1;
                proof {
                    renderer.lemma_wf();
                }
                assert(bit == sprite_bit(m.ram[m.index + pr - gsy], pc - gsx));
                if px < 64 && py < 32 && bit {
                    assert(sprite_pixel(m.ram, m.index, gsx, gsy, n as int, pr, pc));
                    let was_lit = renderer.draw(px, py);
                    proof {
                        renderer.lemma_wf();
                    }
                    assert(was_lit == before[pr][pc]);
                    if was_lit {
                        collided = true;
                    }
                }
                proof {
                    assert forall|r: int, c: int| 0 <= r < 32 && 0 <= c < 64 && !(r == pr && c == pc) implies
                        drawn_before(gsx, gsy, row as int, j + 1, r, c)
                            == drawn_before(gsx, gsy, row as int, j as int, r, c) by {}
                }
                j += 1;
            }
            proof {
                assert forall|r: int, c: int| 0 <= r < 32 && 0 <= c < 64
                    && sprite_pixel(m.ram, m.index, gsx, gsy, n as int, r, c) implies
                    drawn_before(gsx, gsy, row + 1, 0, r, c)
                        == drawn_before(gsx, gsy, row as int, 8, r, c) by {}
            }
            row += 1;
        }
        if collided {
            self.registers.set(15, 1);
        }
        proof {
            renderer.lemma_wf();
            old(renderer).lemma_wf();
            let target = draw_screen(before, m.ram, m.index, gsx, gsy, n as int);
            assert forall|r: int| 0 <= r < 32 implies #[trigger] renderer.screen()[r] == target[r] by {
                assert forall|c: int| 0 <= c < 64 implies #[trigger] renderer.screen()[r][c] == target[r][c] by {
                    if sprite_pixel(m.ram, m.index, gsx, gsy, n as int, r, c) {
                        assert(drawn_before(gsx, gsy, row as int, 0, r, c));
                    }
                }
                assert(renderer.screen()[r] =~= target[r]);
            }
            assert(renderer.screen() =~= target);
            if !collided {
                assert(!collides(before, m.ram, m.index, gsx, gsy, n as int)) by {
                    assert forall|r: int, c: int| 0 <= r < 32 && 0 <= c < 64 && before[r][c] implies
                        !#[trigger] sprite_pixel(m.ram, m.index, gsx, gsy, n as int, r, c) by {
                        if sprite_pixel(m.ram, m.index, gsx, gsy, n as int, r, c) {
                            assert(drawn_before(gsx, gsy, row as int, 0, r, c));
                        }
                    }
                }
            }
            assert(self@.regs =~= with_reg(m, 15, if collided { 1 } else { 0 }).regs);
        }
        Ok(())
    }

    /// Runs one decoded instruction. `rnd` is the random byte that `Cxnn`
    /// masks; no other instruction reads it.
    pub fn execute(
        &mut self,
        ins: Instruction,
        renderer: &mut Renderer,
        timers: &mut Timers,
        rnd: u8,
    ) -> (r: Result<(), Fault>)
        requires
            old(self).wf(),
            old(renderer).wf(),
            fields_in_range(ins),
        ensures
            final(self).wf(),
            final(renderer).wf(),
            final(renderer).keys() == old(renderer).keys(),
            exec_spec(old(self)@, old(renderer).screen(), old(renderer).keys(), *old(timers), ins, rnd)
                == (Effect { result: r, cpu: final(self)@, screen: final(renderer).screen(), timers: *final(timers) }),
    {
        proof {
            renderer.lemma_wf();
        }
        match ins {
            Instruction::ClearScreen => {
                renderer.clear_screen();
            },
            Instruction::Return => {
                if self.sp == 0 {
                    return Err(Fault::StackUnderflow);
                }
                self.pc = self.stack_pop();
            },
            Instruction::Jump(a) => {
                self.pc = a;
                return Ok(());
            },
            Instruction::Call(a) => {
                if self.sp as usize >= MAX_STACK_SIZE {
                    return Err(Fault::StackOverflow);
                }
                self.stack_push(self.pc);
                self.pc = a;
                return Ok(());
            },
            Instruction::SkipEqImm(x, nn) => {
                let vx = self.registers[x as usize];
                self.skip_next_if(vx == nn);
                return Ok(());
            },
            Instruction::SkipNeImm(x, nn) => {
                let vx = self.registers[x as usize];
                self.skip_next_if(vx != nn);
                return Ok(());
            },
            Instruction::SkipEqReg(x, y) => {
                let vx = self.registers[x as usize];
                let vy = self.registers[y as usize];
                self.skip_next_if(vx == vy);
                return Ok(());
            },
            Instruction::SkipNeReg(x, y) => {
                let vx = self.registers[x as usize];
                let vy = self.registers[y as usize];
                self.skip_next_if(vx != vy);
                return Ok(());
            },
            Instruction::SetImm(x, nn) => {
                self.set_register(x, nn);
            },
            Instruction::AddImm(x, nn) => {
                let vx = self.registers[x as usize];
                self.set_register(x, ((vx as u16 + nn as u16) % 256) as u8);
            },
            Instruction::Math(x, y, op) => {
                if !self.handle_math_ops(x, y, op) {
                    return Err(Fault::DecodeFailure);
                }
            },
            Instruction::SetIndex(a) => {
                self.index = a;
            },
            Instruction::JumpOffset(a) => {
                let mut jump_reg: usize = 0;
                if self.mode == CPUMode::Chip48 {
                    jump_reg = ((a / 256) % 16) as usize;
                }
                self.pc = a + self.registers[jump_reg] as u16;
                return Ok(());
            },
            Instruction::Random(x, nn) => {
                self.set_register(x, rnd & nn);
            },
            Instruction::Draw(x, y, n) => {
                let r = self.handle_draw(renderer, x, y, n);
                if r.is_err() {
                    return r;
                }
            },
            Instruction::SkipKey(x) => {
                let vx = self.registers[x as usize];
                if vx >= 16 {
                    return Err(Fault::InvalidKey);
                }
                let pressed = renderer.is_key_pressed(vx);
                self.skip_next_if(pressed);
                return Ok(());
            },
            Instruction::SkipNotKey(x) => {
                let vx = self.registers[x as usize];
                if vx >= 16 {
                    return Err(Fault::InvalidKey);
                }
                let pressed = renderer.is_key_pressed(vx);
                self.skip_next_if(!pressed);
                return Ok(());
            },
            Instruction::GetDelay(x) => {
                self.set_register(x, timers.delay);
            },
            Instruction::SetDelay(x) => {
                timers.delay = self.registers[x as usize];
            },
            Instruction::SetSound(x) => {
                timers.sound = self.registers[x as usize];
            },
            Instruction::AddIndex(x) => {
                let sum = self.index as u32 + self.registers[x as usize] as u32;
                self.index = (sum % 0x10000) as u16;
                if sum >= 0x10000 || self.index as usize >= RAM_SIZE {
                    self.registers.set(15, 1);
                }
            },
            Instruction::WaitKey(x) => {
                if renderer.is_any_key_pressed() {
                    let key = renderer.get_first_key_pressed();
                    self.set_register(x, key);
                } else {
                    return Ok(());
                }
            },
            Instruction::FontChar(x) => {
                let vx = self.registers[x as usize];
                self.index = FONT_SPRITES_START_OFFSET + (vx as u16 % 16) * 5;
            },
            Instruction::Bcd(x) => {
                if !self.write_decimal_at_index(x) {
                    return Err(Fault::MemoryBounds);
                }
            },
            Instruction::StoreRegs(x) => {
                if !self.register_rw(x, RegisterRWMode::Write) {
                    return Err(Fault::MemoryBounds);
                }
            },
            Instruction::LoadRegs(x) => {
                if !self.register_rw(x, RegisterRWMode::Read) {
                    return Err(Fault::MemoryBounds);
                }
            },
        }
        self.advance_pc();
        Ok(())
    }

    /// One fetch-decode-execute cycle with `rnd` as the random byte.
    pub fn step_with_random(&mut self, renderer: &mut Renderer, timers: &mut Timers, rnd: u8) -> (r: Result<(), Fault>)
        requires
            old(self).wf(),
            old(renderer).wf(),
        ensures
            final(self).wf(),
            final(renderer).wf(),
            final(renderer).keys() == old(renderer).keys(),
            step_spec(old(self)@, old(renderer).screen(), old(renderer).keys(), *old(timers), rnd)
                == (Effect { result: r, cpu: final(self)@, screen: final(renderer).screen(), timers: *final(timers) }),
    {
        let pc = self.pc as usize;
        if pc + 1 >= RAM_SIZE {
            return Err(Fault::MemoryBounds);
        }
        let opcode: u16 = self.ram[pc] as u16 * 256 + self.ram[pc + 1] as u16;
        match decode(opcode) {
            None => Err(Fault::DecodeFailure),
            Some(ins) => self.execute(ins, renderer, timers, rnd),
        }
    }

    /// One fetch-decode-execute cycle; `Cxnn` draws its random byte here.
    pub fn step(&mut self, renderer: &mut Renderer, timers: &mut Timers) -> (r: Result<(), Fault>)
        requires
            old(self).wf(),
            old(renderer).wf(),
        ensures
            final(self).wf(),
            final(renderer).wf(),
            final(renderer).keys() == old(renderer).keys(),
            exists|rnd: u8|
                #[trigger] step_spec(old(self)@, old(renderer).screen(), old(renderer).keys(), *old(timers), rnd)
                    == (Effect { result: r, cpu: final(self)@, screen: final(renderer).screen(), timers: *final(timers) }),
    {
        let rnd = random_byte();
        self.step_with_random(renderer, timers, rnd)
    }

    /// Resets the registers, index register, program counter and stack to
    /// zero and writes the font glyphs into memory; the rest of memory and
    /// the dialect are kept.
    pub fn init(&mut self)
        requires
            old(self).wf(),
        ensures
            final(self).wf(),
            final(self)@ == (CpuModel {
                pc: 0,
                index: 0,
                regs: Seq::new(16, |i: int| 0u8),
                stack: Seq::new(32, |i: int| 0u16),
                sp: 0,
                ram: with_font(old(self)@.ram),
                ..old(self)@
            }),
    {
        self.index = 0;
        self.pc = 0;
        self.registers = zeroed_u8(REGISTER_COUNT);
        self.stack = zeroed_u16(MAX_STACK_SIZE);
        self.sp = 0;
        let font = font_sprites();
        let ghost m = self@;
        let start = FONT_SPRITES_START_OFFSET as usize;
        let mut k: usize = 0;
        while k < font.len()
            invariant
                self.wf(),
                font@ == font_spec(),
                start == 0x50,
                0 <= k <= 80,
                self@ == (CpuModel { ram: self@.ram, ..m }),
                forall|a: int| 0 <= a < 4096 ==> #[trigger] self@.ram[a]
                    == if start <= a < start + k { font_spec()[a - start] } else { m.ram[a] },
            decreases 80 - k,
        {
            self.ram.set(start + k, font[k]);
            k += 1;
        }
        proof {
            assert(self@.ram =~= with_font(m.ram));
        }
    }

    /// All of memory.
    pub fn memory(&self) -> (r: &Vec<u8>)
        ensures
            r@ == self@.ram,
    {
        &self.ram
    }

    /// Writes the machine fields and the timers at the save's write
    /// position (memory is not among them).
    pub fn save_state(&self, save: &mut Save, timers: &Timers)
        requires
            self.wf(),
            old(save).wf(),
            old(save).write_pos() + CPU_STATE_LEN <= SAVE_BUFFER_SIZE,
        ensures
            final(save).wf(),
            final(save).contents() == crate::save::splice(old(save).contents(), old(save).write_pos(), encode_cpu(self@, *timers)),
            final(save).write_pos() == old(save).write_pos() + CPU_STATE_LEN,
            final(save).read_pos() == old(save).read_pos(),
    {
        let mut out: Vec<u8> = Vec::new();
        out.push((self.pc % 256) as u8);
        out.push((self.pc / 256) as u8);
        out.push((self.index % 256) as u8);
        out.push((self.index / 256) as u8);
        let ghost head = le16(self.pc) + le16(self.index);
        assert(out@ =~= head);
        let mut k: usize = 0;
        while k < REGISTER_COUNT
            invariant
                self.wf(),
                0 <= k <= 16,
                out@ == head + self@.regs.subrange(0, k as int),
            decreases 16 - k,
        {
            out.push(self.registers[k]);
            k += 1;
            assert(out@ =~= head + self@.regs.subrange(0, k as int));
        }
        assert(self@.regs.subrange(0, 16) =~= self@.regs);
        let ghost head2 = head + self@.regs;
        let mut s: usize = 0;
        while s < MAX_STACK_SIZE
            invariant
                self.wf(),
                0 <= s <= 32,
                head2.len() == 20,
                out@.len() == 20 + 2 * s,
                out@.subrange(0, 20) == head2,
                forall|i: int| 0 <= i < 2 * s ==> #[trigger] out@[20 + i] == stack_bytes(self@.stack)[i],
            decreases 32 - s,
        {
            let v = self.stack[s];
            out.push((v % 256) as u8);
            out.push((v / 256) as u8);
            proof {
                assert(out@.subrange(0, 20) =~= head2);
                assert forall|i: int| 0 <= i < 2 * (s + 1) implies #[trigger] out@[20 + i] == stack_bytes(self@.stack)[i] by {
                    if i == 2 * s {
                        assert(i / 2 == s);
                    } else if i == 2 * s + 1 {
                        assert(i / 2 == s);
                    }
                }
            }
            s += 1;
        }
        out.push(self.sp);
        out.push(if self.mode == CPUMode::Chip8 { 0 } else { 1 });
        out.push(timers.delay);
        out.push(timers.sound);
        proof {
            let want = encode_cpu(self@, *timers);
            assert(want.len() == 88);
            assert forall|i: int| 0 <= i < 88 implies #[trigger] out@[i] == want[i] by {
                if i < 20 {
                    assert(out@[i] == out@.subrange(0, 20)[i]);
                } else if i < 84 {
                    assert(out@[20 + (i - 20)] == stack_bytes(self@.stack)[i - 20]);
                }
            }
            assert(out@ =~= want);
        }
        save.write_bytes(&out);
    }

    /// Reads the machine fields and the timers at the save's read position
    /// and, with `ram` as memory, makes them the machine's state. On an error
    /// the machine and the timers are left as they were.
    pub fn load_state(&mut self, save: &mut Save, timers: &mut Timers, ram: Vec<u8>) -> (r: Result<(), LoadError>)
        requires
            old(self).wf(),
            old(save).wf(),
            old(save).read_pos() + CPU_STATE_LEN <= SAVE_BUFFER_SIZE,
            ram@.len() == RAM_SIZE,
        ensures
            final(self).wf(),
            final(save).wf(),
            final(save).contents() == old(save).contents(),
            final(save).write_pos() == old(save).write_pos(),
            final(save).read_pos() == old(save).read_pos() + CPU_STATE_LEN,
            ({
                let b = old(save).contents().subrange(old(save).read_pos(), old(save).read_pos() + CPU_STATE_LEN);
                match decode_cpu(ram@, b) {
                    Ok((m, t)) => r is Ok && final(self)@ == m && *final(timers) == t,
                    Err(e) => r == Err::<(), LoadError>(e) && final(self)@ == old(self)@ && *final(timers) == *old(timers),
                }
            }),
    {
        proof {
            save.lemma_wf();
        }
        let ghost start = save.read_pos();
        let ghost b = save.contents().subrange(start, start + CPU_STATE_LEN);
        let pc = save.read_u16();
        let index = save.read_u16();
        let mut registers: Vec<u8> = Vec::new();
        let mut k: usize = 0;
        while k < REGISTER_COUNT
            invariant
                save.wf(),
                0 <= k <= 16,
                start == old(save).read_pos(),
                0 <= start,
                start + CPU_STATE_LEN <= SAVE_BUFFER_SIZE,
                b == old(save).contents().subrange(start, start + CPU_STATE_LEN),
                save.contents() == old(save).contents(),
                save.write_pos() == old(save).write_pos(),
                save.read_pos() == start + 4 + k,
                registers@ == b.subrange(4, 4 + k),
            decreases 16 - k,
        {
            proof {
                save.lemma_wf();
            }
            let v = save.read();
            registers.push(v);
            k += 1;
            assert(registers@ =~= b.subrange(4, 4 + k));
        }
        let mut stack: Vec<u16> = Vec::new();
        let mut s: usize = 0;
        while s < MAX_STACK_SIZE
            invariant
                save.wf(),
                0 <= s <= 32,
                start == old(save).read_pos(),
                0 <= start,
                start + CPU_STATE_LEN <= SAVE_BUFFER_SIZE,
                b == old(save).contents().subrange(start, start + CPU_STATE_LEN),
                save.contents() == old(save).contents(),
                save.write_pos() == old(save).write_pos(),
                save.read_pos() == start + 20 + 2 * s,
                stack@ == Seq::new(s as nat, |i: int| read_le16(b, 20 + 2 * i)),
            decreases 32 - s,
        {
            proof {
                save.lemma_wf();
            }
            let v = save.read_u16();
            stack.push(v);
            s += 1;
            assert(stack@ =~= Seq::new(s as nat, |i: int| read_le16(b, 20 + 2 * i)));
        }
        let sp = save.read();
        let mode_tag = save.read();
        let delay = save.read();
        let sound = save.read();
        if mode_tag > 1 {
            return Err(LoadError::BadMode);
        }
        if sp as usize > MAX_STACK_SIZE {
            return Err(LoadError::BadStackDepth);
        }
        self.pc = pc;
        self.index = index;
        self.registers = registers;
        self.stack = stack;
        self.sp = sp;
        self.mode = if mode_tag == 0 { CPUMode::Chip8 } else { CPUMode::Chip48 };
        self.ram = ram;
        timers.delay = delay;
        timers.sound = sound;
        Ok(())
    }

    /// `Fx33`: writes the hundreds, tens and ones of register `reg` at the
    /// index register and the two bytes after it; false, with nothing
    /// changed, where they would pass the end of memory.
    fn write_decimal_at_index(&mut self, reg: u8) -> (r: bool)
        requires
            old(self).wf(),
            reg < 16,
        ensures
            final(self).wf(),
            r == (old(self)@.index + 2 < 4096),
            !r ==> final(self)@ == old(self)@,
            r ==> final(self)@ == (CpuModel {
                ram: bcd_ram(old(self)@.ram, old(self)@.index as int, old(self)@.regs[reg as int]),
                ..old(self)@
            }),
    {
        let at = self.index as usize;
        if at + 2 >= RAM_SIZE {
            return false;
        }
        let ghost m = self@;
        let mut value = self.registers[reg as usize];
        self.ram.set(at + 2, value % 10);
        value = value / 10;
        self.ram.set(at + 1, value % 10);
        value = value / 10;
        self.ram.set(at, value % 10);
        proof {
            let v = m.regs[reg as int];
            assert((v / 10) / 10 % 10 == v / 100);
            assert(self@.ram =~= bcd_ram(m.ram, m.index as int, v));
        }
        true
    }
}

/// The opcode stored big-endian at `pc`.
pub open spec fn opcode_at(ram: Seq<u8>, pc: u16) -> u16 {
    (ram[pc as int] * 256 + ram[pc + 1]) as u16
}

/// One fetch-decode-execute cycle.
pub open spec fn step_spec(m: CpuModel, screen: Seq<Seq<bool>>, keys: Seq<bool>, t: Timers, rnd: u8) -> Effect {
    if m.pc + 1 >= 4096 {
        fault(Fault::MemoryBounds, m, screen, t)
    } else {
        match decode_spec(opcode_at(m.ram, m.pc)) {
            None => fault(Fault::DecodeFailure, m, screen, t),
            Some(ins) => exec_spec(m, screen, keys, t, ins, rnd),
        }
    }
}

/// The sixteen 5-byte glyphs of the hex digits 0..F.
pub open spec fn font_spec() -> Seq<u8> {
    seq![
        0xF0, 0x90, 0x90, 0x90, 0xF0, 0x20, 0x60, 0x20, 0x20, 0x70,
        0xF0, 0x10, 0xF0, 0x80, 0xF0, 0xF0, 0x10, 0xF0, 0x10, 0xF0,
        0x90, 0x90, 0xF0, 0x10, 0x10, 0xF0, 0x80, 0xF0, 0x10, 0xF0,
        0xF0, 0x80, 0xF0, 0x90, 0xF0, 0xF0, 0x10, 0x20, 0x40, 0x40,
        0xF0, 0x90, 0xF0, 0x90, 0xF0, 0xF0, 0x90, 0xF0, 0x10, 0xF0,
        0xF0, 0x90, 0xF0, 0x90, 0x90, 0xE0, 0x90, 0xE0, 0x90, 0xE0,
        0xF0, 0x80, 0x80, 0x80, 0xF0, 0xE0, 0x90, 0x90, 0x90, 0xE0,
        0xF0, 0x80, 0xF0, 0x80, 0xF0, 0xF0, 0x80, 0xF0, 0x80, 0x80,
    ]
}

/// Memory with the font glyphs written at `FONT_SPRITES_START_OFFSET`.
pub open spec fn with_font(ram: Seq<u8>) -> Seq<u8> {
    Seq::new(ram.len(), |a: int| if 0x50 <= a < 0xA0 { font_spec()[a - 0x50] } else { ram[a] })
}

fn font_sprites() -> (r: Vec<u8>)
    ensures
        r@ == font_spec(),
{
    let r: Vec<u8> = vec![
        0xF0, 0x90, 0x90, 0x90, 0xF0, // 0
        0x20, 0x60, 0x20, 0x20, 0x70, // 1
        0xF0, 0x10, 0xF0, 0x80, 0xF0, // 2
        0xF0, 0x10, 0xF0, 0x10, 0xF0, // 3
        0x90, 0x90, 0xF0, 0x10, 0x10, // 4
        0xF0, 0x80, 0xF0, 0x10, 0xF0, // 5
        0xF0, 0x80, 0xF0, 0x90, 0xF0, // 6
        0xF0, 0x10, 0x20, 0x40, 0x40, // 7
        0xF0, 0x90, 0xF0, 0x90, 0xF0, // 8
        0xF0, 0x90, 0xF0, 0x10, 0xF0, // 9
        0xF0, 0x90, 0xF0, 0x90, 0x90, // A
        0xE0, 0x90, 0xE0, 0x90, 0xE0, // B
        0xF0, 0x80, 0x80, 0x80, 0xF0, // C
        0xE0, 0x90, 0x90, 0x90, 0xE0, // D
        0xF0, 0x80, 0xF0, 0x80, 0xF0, // E
        0xF0, 0x80, 0xF0, 0x80, 0x80, // F
    ];
    assert(r@ =~= font_spec());
    r
}

fn zeroed_u8(len: usize) -> (r: Vec<u8>)
    ensures
        r@ == Seq::new(len as nat, |i: int| 0u8),
{
    let mut r: Vec<u8> = Vec::new();
    let mut i: usize = 0;
    while i < len
        invariant
            0 <= i <= len,
            r@ == Seq::new(i as nat, |k: int| 0u8),
        decreases len - i,
    {
        r.push(0);
        i += 1;
        assert(r@ =~= Seq::new(i as nat, |k: int| 0u8));
    }
    r
}

fn zeroed_u16(len: usize) -> (r: Vec<u16>)
    ensures
        r@ == Seq::new(len as nat, |i: int| 0u16),
{
    let mut r: Vec<u16> = Vec::new();
    let mut i: usize = 0;
    while i < len
        invariant
            0 <= i <= len,
            r@ == Seq::new(i as nat, |k: int| 0u16),
        decreases len - i,
    {
        r.push(0);
        i += 1;
        assert(r@ =~= Seq::new(i as nat, |k: int| 0u16));
    }
    r
}

/// Relies on rand::random::<u8> for the byte that `Cxnn` masks; nothing is
/// known of its value.
#[verifier::external_body]
fn random_byte() -> u8 {
    rand::random::<u8>()
}

/// A machine with everything zero, memory included, in the `Chip8` dialect.
pub fn make_cpu() -> (r: CPU)
    ensures
        r.wf(),
        r@ == (CpuModel {
            pc: 0,
            index: 0,
            regs: Seq::new(16, |i: int| 0u8),
            stack: Seq::new(32, |i: int| 0u16),
            sp: 0,
            mode: CPUMode::Chip8,
            ram: Seq::new(4096, |i: int| 0u8),
        }),
{
    CPU {
        pc: 0,
        index: 0,
        registers: zeroed_u8(REGISTER_COUNT),
        stack: zeroed_u16(MAX_STACK_SIZE),
        sp: 0,
        mode: CPUMode::Chip8,
        ram: zeroed_u8(RAM_SIZE),
    }
}

} // verus!
