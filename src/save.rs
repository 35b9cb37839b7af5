use vstd::prelude::*;
use crate::cpu::{CPUMode, CpuModel, CPU, RAM_SIZE};
use crate::display::{decode_display, encode_display, lemma_display_round_trip, Renderer, DISPLAY_STATE_LEN};
use crate::timer::Timers;

verus! {

pub const SAVE_BUFFER_SIZE: usize = 8192;
/// Bytes that the machine fields (all but memory) take in a save.
pub const CPU_STATE_LEN: usize = 88;
/// Bytes that memory and the machine fields take in a save.
pub const MACHINE_STATE_LEN: usize = 4184;
/// Bytes that a whole save takes: memory, the machine fields, then the
/// framebuffer.
pub const SAVE_STATE_LEN: usize = 4440;

/// Why a save could not be read back.
#[derive(Debug, PartialEq, Eq, Structural, Clone, Copy)]
pub enum LoadError {
    /// More bytes than the save buffer holds.
    TooLarge,
    /// Fewer bytes than a save takes.
    Truncated,
    /// A mode byte other than 0 or 1.
    BadMode,
    /// A stack depth above 32.
    BadStackDepth,
}

/// `v` as two bytes, low byte first.
pub open spec fn le16(v: u16) -> Seq<u8> {
    seq![(v % 256) as u8, (v / 256) as u8]
}

/// The two bytes at `b[at]`, `b[at + 1]` read low byte first.
pub open spec fn read_le16(b: Seq<u8>, at: int) -> u16 {
    (b[at] + 256 * b[at + 1]) as u16
}

/// Every stack slot as two bytes, low byte first.
pub open spec fn stack_bytes(s: Seq<u16>) -> Seq<u8> {
    Seq::new(2 * s.len(), |k: int| if k % 2 == 0 { (s[k / 2] % 256) as u8 } else { (s[k / 2] / 256) as u8 })
}

pub open spec fn mode_byte(mode: CPUMode) -> u8 {
    if mode == CPUMode::Chip8 { 0 } else { 1 }
}

/// The machine fields: program counter, index register, registers, stack
/// slots, stack depth, mode byte, delay timer, sound timer.
pub open spec fn encode_cpu(m: CpuModel, t: Timers) -> Seq<u8> {
    le16(m.pc) + le16(m.index) + m.regs + stack_bytes(m.stack) + seq![m.sp, mode_byte(m.mode), t.delay, t.sound]
}

/// Memory, then the machine fields.
pub open spec fn encode_state(m: CpuModel, t: Timers) -> Seq<u8> {
    m.ram + encode_cpu(m, t)
}

/// The machine read back from its fields `b` (88 bytes) and memory `ram`.
pub open spec fn decode_cpu(ram: Seq<u8>, b: Seq<u8>) -> Result<(CpuModel, Timers), LoadError> {
    if b[85] > 1 {
        Err(LoadError::BadMode)
    } else if b[84] > 32 {
        Err(LoadError::BadStackDepth)
    } else {
        Ok((
            CpuModel {
                pc: read_le16(b, 0),
                index: read_le16(b, 2),
                regs: b.subrange(4, 20),
                stack: Seq::new(32, |k: int| read_le16(b, 20 + 2 * k)),
                sp: b[84],
                mode: if b[85] == 0 { CPUMode::Chip8 } else { CPUMode::Chip48 },
                ram,
            },
            Timers { delay: b[86], sound: b[87] },
        ))
    }
}

/// Memory and the machine fields (4184 bytes) read back.
pub open spec fn decode_state(b: Seq<u8>) -> Result<(CpuModel, Timers), LoadError> {
    decode_cpu(b.subrange(0, 4096), b.subrange(4096, 4184))
}

/// A whole save: memory, the machine fields, then the framebuffer rows.
pub open spec fn encode_save(m: CpuModel, t: Timers, rows: Seq<u64>) -> Seq<u8> {
    encode_state(m, t) + encode_display(rows)
}

/// A whole save (4440 bytes) read back.
pub open spec fn decode_save(b: Seq<u8>) -> Result<(CpuModel, Timers, Seq<u64>), LoadError> {
    match decode_state(b.subrange(0, 4184)) {
        Ok((m, t)) => Ok((m, t, decode_display(b.subrange(4184, 4440)))),
        Err(e) => Err(e),
    }
}

/// `buf` with `data` written over it from `at` on.
pub open spec fn splice(buf: Seq<u8>, at: int, data: Seq<u8>) -> Seq<u8> {
    Seq::new(buf.len(), |i: int| if at <= i < at + data.len() { data[i - at] } else { buf[i] })
}

/// Decoding the encoded memory and machine fields gives back the same
/// machine and timers.
pub proof fn lemma_machine_round_trip(m: CpuModel, t: Timers)
    requires
        m.wf(),
    ensures
        decode_state(encode_state(m, t)) == Ok::<(CpuModel, Timers), LoadError>((m, t)),
{
    let e = encode_state(m, t);
    let b = e.subrange(4096, 4184);
    assert(e.subrange(0, 4096) =~= m.ram);
    assert(b =~= encode_cpu(m, t));
    assert(b.subrange(4, 20) =~= m.regs);
    assert forall|k: int| 0 <= k < 32 implies #[trigger] read_le16(b, 20 + 2 * k) == m.stack[k] by {
        assert(b[20 + 2 * k] == stack_bytes(m.stack)[2 * k]);
        assert(b[21 + 2 * k] == stack_bytes(m.stack)[2 * k + 1]);
        assert((2 * k) / 2 == k);
        assert((2 * k + 1) / 2 == k);
    }
    assert(Seq::new(32, |k: int| read_le16(b, 20 + 2 * k)) =~= m.stack);
    assert(read_le16(b, 0) == m.pc);
    assert(read_le16(b, 2) == m.index);
}

/// Decoding a whole save gives back the same machine, timers and
/// framebuffer, bit for bit.
pub proof fn lemma_save_round_trip(m: CpuModel, t: Timers, rows: Seq<u64>)
    requires
        m.wf(),
        rows.len() == 32,
    ensures
        decode_save(encode_save(m, t, rows)) == Ok::<(CpuModel, Timers, Seq<u64>), LoadError>((m, t, rows)),
{
    let e = encode_save(m, t, rows);
    assert(e.subrange(0, 4184) =~= encode_state(m, t));
    assert(e.subrange(4184, 4440) =~= encode_display(rows));
    lemma_machine_round_trip(m, t);
    lemma_display_round_trip(rows);
}

/// A fixed-size byte buffer that a save is written into and read from,
/// each from its own position.
pub struct Save {
    buffer: Vec<u8>,
    write_ptr: usize,
    read_ptr: usize,
}

impl Save {
    pub closed spec fn contents(&self) -> Seq<u8> {
        self.buffer@
    }

    pub closed spec fn write_pos(&self) -> int {
        self.write_ptr as int
    }

    pub closed spec fn read_pos(&self) -> int {
        self.read_ptr as int
    }

    pub closed spec fn wf(&self) -> bool {
        &&& self.buffer@.len() == SAVE_BUFFER_SIZE
        &&& self.write_ptr <= SAVE_BUFFER_SIZE
        &&& self.read_ptr <= SAVE_BUFFER_SIZE
    }

    pub proof fn lemma_wf(&self)
        requires
            self.wf(),
        ensures
            self.contents().len() == SAVE_BUFFER_SIZE,
            0 <= self.write_pos() <= SAVE_BUFFER_SIZE,
            0 <= self.read_pos() <= SAVE_BUFFER_SIZE,
    {
    }

    /// Appends one byte at the write position.
    pub fn write(&mut self, byte: u8)
        requires
            old(self).wf(),
            old(self).write_pos() < SAVE_BUFFER_SIZE,
        ensures
            final(self).wf(),
            final(self).contents() == old(self).contents().update(old(self).write_pos(), byte),
            final(self).write_pos() == old(self).write_pos() + 1,
            final(self).read_pos() == old(self).read_pos(),
    {
        self.buffer.set(self.write_ptr, byte);
        self.write_ptr += 1;
    }

    /// Appends `data` at the write position.
    pub fn write_bytes(&mut self, data: &Vec<u8>)
        requires
            old(self).wf(),
            old(self).write_pos() + data@.len() <= SAVE_BUFFER_SIZE,
        ensures
            final(self).wf(),
            final(self).contents() == splice(old(self).contents(), old(self).write_pos(), data@),
            final(self).write_pos() == old(self).write_pos() + data@.len(),
            final(self).read_pos() == old(self).read_pos(),
    {
        let ghost start = self.write_pos();
        let mut k: usize = 0;
        while k < data.len()
            invariant
                self.wf(),
                0 <= k <= data@.len(),
                start == old(self).write_pos(),
                start + data@.len() <= SAVE_BUFFER_SIZE,
                self.write_pos() == start + k,
                self.read_pos() == old(self).read_pos(),
                self.contents() == splice(old(self).contents(), start, data@.subrange(0, k as int)),
            decreases data@.len() - k,
        {
            self.write(data[k]);
            k += 1;
            assert(self.contents() =~= splice(old(self).contents(), start, data@.subrange(0, k as int)));
        }
        assert(data@.subrange(0, k as int) =~= data@);
    }

    /// Writes the whole machine: memory, its fields and the timers, then
    /// the framebuffer.
    pub fn build(&mut self, cpu: &CPU, renderer: &Renderer, timers: &Timers)
        requires
            old(self).wf(),
            cpu.wf(),
            renderer.wf(),
            old(self).write_pos() + SAVE_STATE_LEN <= SAVE_BUFFER_SIZE,
        ensures
            final(self).wf(),
            final(self).contents() == splice(
                old(self).contents(),
                old(self).write_pos(),
                encode_save(cpu@, *timers, renderer.rows()),
            ),
            final(self).write_pos() == old(self).write_pos() + SAVE_STATE_LEN,
            final(self).read_pos() == old(self).read_pos(),
    {
        let ghost start = self.write_pos();
        self.write_bytes(cpu.memory());
        cpu.save_state(self, timers);
        renderer.save_state(self);
        assert(self.contents() =~= splice(old(self).contents(), start, encode_save(cpu@, *timers, renderer.rows())));
    }

    /// Takes the byte at the read position.
    pub fn read(&mut self) -> (r: u8)
        requires
            old(self).wf(),
            old(self).read_pos() < SAVE_BUFFER_SIZE,
        ensures
            final(self).wf(),
            r == old(self).contents()[old(self).read_pos()],
            final(self).contents() == old(self).contents(),
            final(self).write_pos() == old(self).write_pos(),
            final(self).read_pos() == old(self).read_pos() + 1,
    {
        let byte = self.buffer[self.read_ptr];
        self.read_ptr += 1;
        byte
    }

    /// Takes two bytes at the read position, low byte first.
    pub fn read_u16(&mut self) -> (r: u16)
        requires
            old(self).wf(),
            old(self).read_pos() + 2 <= SAVE_BUFFER_SIZE,
        ensures
            final(self).wf(),
            r == read_le16(old(self).contents(), old(self).read_pos()),
            final(self).contents() == old(self).contents(),
            final(self).write_pos() == old(self).write_pos(),
            final(self).read_pos() == old(self).read_pos() + 2,
    {
        let lo = self.read() as u16;
        let hi = self.read() as u16;
        lo + hi * 256
    }
    /// Reads a whole save at the read position into `cpu`, `renderer` and
    /// `timers`. On an error all three are left as they were, and the read
    /// position has passed memory and the machine fields only.
    pub fn load(&mut self, cpu: &mut CPU, renderer: &mut Renderer, timers: &mut Timers) -> (r: Result<(), LoadError>)
        requires
            old(self).wf(),
            old(cpu).wf(),
            old(renderer).wf(),
            old(self).read_pos() + SAVE_STATE_LEN <= SAVE_BUFFER_SIZE,
        ensures
            final(self).wf(),
            final(cpu).wf(),
            final(renderer).wf(),
            final(renderer).keys() == old(renderer).keys(),
            final(self).contents() == old(self).contents(),
            final(self).write_pos() == old(self).write_pos(),
            ({
                let decoded = decode_save(
                    old(self).contents().subrange(old(self).read_pos(), old(self).read_pos() + SAVE_STATE_LEN),
                );
                match decoded {
                    Ok((m, t, rows)) => r is Ok && final(cpu)@ == m && *final(timers) == t
                        && final(renderer).rows() == rows
                        && final(self).read_pos() == old(self).read_pos() + SAVE_STATE_LEN,
                    Err(e) => r == Err::<(), LoadError>(e) && final(cpu)@ == old(cpu)@ && *final(timers) == *old(timers)
                        && final(renderer).rows() == old(renderer).rows()
                        && final(self).read_pos() == old(self).read_pos() + MACHINE_STATE_LEN,
                }
            }),
    {
        let ghost start = self.read_pos();
        let mut ram: Vec<u8> = Vec::new();
        let mut i: usize = 0;
        while i < RAM_SIZE
            invariant
                self.wf(),
                0 <= i <= RAM_SIZE,
                start == old(self).read_pos(),
                start + SAVE_STATE_LEN <= SAVE_BUFFER_SIZE,
                self.contents() == old(self).contents(),
                self.write_pos() == old(self).write_pos(),
                self.read_pos() == start + i,
                ram@ == old(self).contents().subrange(start, start + i),
            decreases RAM_SIZE - i,
        {
            let b = self.read();
            ram.push(b);
            i += 1;
            assert(ram@ =~= old(self).contents().subrange(start, start + i));
        }
        let r = cpu.load_state(self, timers, ram);
        proof {
            let whole = old(self).contents().subrange(start, start + SAVE_STATE_LEN);
            assert(whole.subrange(0, 4184).subrange(0, 4096) =~= old(self).contents().subrange(start, start + 4096));
            assert(whole.subrange(0, 4184).subrange(4096, 4184) =~= old(self).contents().subrange(start + 4096, start + 4184));
            assert(whole.subrange(4184, 4440) =~= old(self).contents().subrange(start + 4184, start + 4440));
        }
        if r.is_err() {
            return r;
        }
        renderer.load_state(self);
        r
    }

    /// The whole buffer, for writing it out.
    pub fn as_bytes(&self) -> (r: &Vec<u8>)
        ensures
            r@ == self.contents(),
    {
        &self.buffer
    }
}

/// A save buffer holding `data` followed by zero bytes, ready to be read
/// from its start; an error when `data` is longer than the buffer or
/// shorter than a save.
pub fn from_bytes(data: &Vec<u8>) -> (r: Result<Save, LoadError>)
    ensures
        data@.len() > SAVE_BUFFER_SIZE ==> r == Err::<Save, LoadError>(LoadError::TooLarge),
        data@.len() <= SAVE_BUFFER_SIZE && data@.len() < SAVE_STATE_LEN ==> r == Err::<Save, LoadError>(LoadError::Truncated),
        SAVE_STATE_LEN <= data@.len() <= SAVE_BUFFER_SIZE ==> (r matches Ok(s) && s.wf() && s.read_pos() == 0
            && s.write_pos() == data@.len()
            && s.contents() == data@ + Seq::new((SAVE_BUFFER_SIZE - data@.len()) as nat, |i: int| 0u8)),
{
    if data.len() > SAVE_BUFFER_SIZE {
        return Err(LoadError::TooLarge);
    }
    if data.len() < SAVE_STATE_LEN {
        return Err(LoadError::Truncated);
    }
    let mut save = make_save();
    save.write_bytes(data);
    assert(save.contents() =~= data@ + Seq::new((SAVE_BUFFER_SIZE - data@.len()) as nat, |i: int| 0u8));
    Ok(save)
}

/// An empty save: all zero bytes, both positions at the start.
pub fn make_save() -> (r: Save)
    ensures
        r.wf(),
        r.contents() == Seq::new(SAVE_BUFFER_SIZE as nat, |i: int| 0u8),
        r.write_pos() == 0,
        r.read_pos() == 0,
{
    let mut buffer: Vec<u8> = Vec::new();
    let mut i: usize = 0;
    while i < SAVE_BUFFER_SIZE
        invariant
            0 <= i <= SAVE_BUFFER_SIZE,
            buffer@ == Seq::new(i as nat, |k: int| 0u8),
        decreases SAVE_BUFFER_SIZE - i,
    {
        buffer.push(0);
        i += 1;
        assert(buffer@ =~= Seq::new(i as nat, |k: int| 0u8));
    }
    Save { buffer, write_ptr: 0, read_ptr: 0 }
}

} // verus!
