use vstd::prelude::*;
use crate::cpu::{CPUMode, CpuModel, CPU, PROG_MEM_START_OFFSET, RAM_SIZE};
use crate::save::splice;

verus! {

/// The register round-trip program: sets V0..V2 to 1, 5, 8, then means to
/// store them, clear them and load them back. Its store and load opcodes
/// carry the decimal bytes 55 and 65 (`F237`, `F241`), which name no
/// operation, so a run stops with a decode failure at the store.
pub open spec fn test_prog_spec() -> Seq<u8> {
    seq![0x60, 0x01, 0x61, 0x05, 0x62, 0x08, 0xF2, 55, 0x60, 0x00, 0x61, 0x00, 0x62, 0x00, 0xF2, 65]
}

/// The key echo program: waits for a key, clears the screen, draws the
/// key's glyph, and starts over.
pub open spec fn echo_prog_spec() -> Seq<u8> {
    seq![0xF0, 0x0A, 0x00, 0xE0, 0xF0, 0x29, 0xD5, 0x55, 0x12, 0x00]
}

/// Copies `data` into memory at the program origin and points the program
/// counter there; false, with nothing changed, when it does not fit.
pub fn load_prog(cpu: &mut CPU, data: &Vec<u8>) -> (r: bool)
    requires
        old(cpu).wf(),
    ensures
        final(cpu).wf(),
        r == (0x200 + data@.len() <= 4096),
        r ==> final(cpu)@ == (CpuModel {
            ram: splice(old(cpu)@.ram, 0x200, data@),
            pc: 0x200,
            ..old(cpu)@
        }),
        !r ==> final(cpu)@ == old(cpu)@,
{
    let start = PROG_MEM_START_OFFSET as usize;
    if data.len() > RAM_SIZE - start {
        return false;
    }
    let ghost m = cpu@;
    assert(m.ram =~= splice(m.ram, 0x200, data@.subrange(0, 0)));
    let mut k: usize = 0;
    while k < data.len()
        invariant
            cpu.wf(),
            start == 0x200,
            start + data@.len() <= 4096,
            0 <= k <= data@.len(),
            cpu@ == (CpuModel { ram: splice(m.ram, 0x200, data@.subrange(0, k as int)), ..m }),
        decreases data@.len() - k,
    {
        cpu.write_memory((start + k) as u16, data[k]);
        k += 1;
        assert(cpu@.ram =~= splice(m.ram, 0x200, data@.subrange(0, k as int)));
    }
    assert(data@.subrange(0, k as int) =~= data@);
    cpu.set_prog_counter(PROG_MEM_START_OFFSET);
    true
}

/// Loads the register round-trip program at the program origin and
/// selects the `Chip48` dialect.
pub fn load_test_prog(cpu: &mut CPU)
    requires
        old(cpu).wf(),
    ensures
        final(cpu).wf(),
        final(cpu)@ == (CpuModel {
            ram: splice(old(cpu)@.ram, 0x200, test_prog_spec()),
            pc: 0x200,
            mode: CPUMode::Chip48,
            ..old(cpu)@
        }),
{
    let prog: Vec<u8> = vec![
        0x60, 0x01, // V0 = 1
        0x61, 0x05, // V1 = 5
        0x62, 0x08, // V2 = 8
        0xF2, 55,   // meant as: store V0..V2
        0x60, 0x00, // V0 = 0
        0x61, 0x00, // V1 = 0
        0x62, 0x00, // V2 = 0
        0xF2, 65,   // meant as: load V0..V2
    ];
    assert(prog@ =~= test_prog_spec());
    load_prog(cpu, &prog);
    cpu.set_mode(CPUMode::Chip48);
}

/// Loads the key echo program.
pub fn echo_prog(cpu: &mut CPU)
    requires
        old(cpu).wf(),
    ensures
        final(cpu).wf(),
        final(cpu)@ == (CpuModel {
            ram: splice(old(cpu)@.ram, 0x200, echo_prog_spec()),
            pc: 0x200,
            ..old(cpu)@
        }),
{
    let prog: Vec<u8> = vec![
        0xF0, 0x0A, // V0 = next key
        0x00, 0xE0, // clear the screen
        0xF0, 0x29, // index = glyph of V0
        0xD5, 0x55, // draw it
        0x12, 0x00, // back to the start
    ];
    assert(prog@ =~= echo_prog_spec());
    load_prog(cpu, &prog);
}

} // verus!
