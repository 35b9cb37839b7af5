use vstd::prelude::*;
use crate::save::{splice, Save, SAVE_BUFFER_SIZE};

verus! {

pub const DISPLAY_WIDTH: u32 = 64;
pub const DISPLAY_HEIGHT: u32 = 32;
pub const KEY_COUNT: usize = 16;

/// Whether bit `c` of a framebuffer row is set.
pub open spec fn lit_bit(w: u64, c: int) -> bool {
    (w >> (c as u64)) & 1 == 1
}

/// The framebuffer, as `DISPLAY_HEIGHT` rows of `DISPLAY_WIDTH` pixels.
pub open spec fn screen_of(rows: Seq<u64>) -> Seq<Seq<bool>> {
    Seq::new(32, |r: int| Seq::new(64, |c: int| lit_bit(rows[r], c)))
}

/// A screen with every pixel off.
pub open spec fn blank_screen() -> Seq<Seq<bool>> {
    Seq::new(32, |r: int| Seq::new(64, |c: int| false))
}

/// The lowest key at or above `k` that is down, or 0 when there is none.
pub open spec fn first_pressed_from(keys: Seq<bool>, k: int) -> u8
    decreases 16 - k,
{
    if k >= 16 || k < 0 {
        0
    } else if keys[k] {
        k as u8
    } else {
        first_pressed_from(keys, k + 1)
    }
}

/// Whether any of the sixteen keys is down.
pub open spec fn any_pressed(keys: Seq<bool>) -> bool {
    exists|k: int| 0 <= k < 16 && #[trigger] keys[k]
}

/// Toggling one bit of a row changes that pixel and no other.
pub proof fn lemma_toggle_bit(w: u64, c: u64, d: u64)
    requires
        c < 64,
        d < 64,
    ensures
        lit_bit(w ^ (1u64 << c), d as int) == (lit_bit(w, d as int) != (c == d)),
{
    assert(((w ^ (1u64 << c)) >> d) & 1 == 1 <==> (((w >> d) & 1 == 1) != (c == d)))
        by (bit_vector)
        requires
            c < 64,
            d < 64,
    ;
}

/// A zero row has no pixel lit.
pub proof fn lemma_zero_row(d: u64)
    requires
        d < 64,
    ensures
        !lit_bit(0u64, d as int),
{
    assert((0u64 >> d) & 1 != 1) by (bit_vector);
}

/// Bytes that the framebuffer takes in a save.
pub const DISPLAY_STATE_LEN: usize = 256;

/// A framebuffer row as eight bytes, low byte first.
pub open spec fn le64(w: u64) -> Seq<u8> {
    seq![
        (w & 0xFF) as u8, ((w >> 8u64) & 0xFF) as u8, ((w >> 16u64) & 0xFF) as u8, ((w >> 24u64) & 0xFF) as u8,
        ((w >> 32u64) & 0xFF) as u8, ((w >> 40u64) & 0xFF) as u8, ((w >> 48u64) & 0xFF) as u8, ((w >> 56u64) & 0xFF) as u8,
    ]
}

/// The eight bytes at `b[at..at + 8]` read low byte first.
pub open spec fn read_le64(b: Seq<u8>, at: int) -> u64 {
    (b[at] as u64) | ((b[at + 1] as u64) << 8u64) | ((b[at + 2] as u64) << 16u64) | ((b[at + 3] as u64) << 24u64)
        | ((b[at + 4] as u64) << 32u64) | ((b[at + 5] as u64) << 40u64) | ((b[at + 6] as u64) << 48u64)
        | ((b[at + 7] as u64) << 56u64)
}

/// Every framebuffer row as eight bytes, low byte first.
pub open spec fn encode_display(rows: Seq<u64>) -> Seq<u8> {
    Seq::new(256, |k: int| le64(rows[k / 8])[k % 8])
}

/// The framebuffer rows read back from their 256 bytes.
pub open spec fn decode_display(b: Seq<u8>) -> Seq<u64> {
    Seq::new(32, |r: int| read_le64(b, 8 * r))
}

/// Eight bytes read back give the row they were written from.
pub proof fn lemma_le64_round_trip(w: u64)
    ensures
        read_le64(le64(w), 0) == w,
{
    assert(((((w & 0xFF) as u8) as u64) | (((((w >> 8u64) & 0xFF) as u8) as u64) << 8u64)
        | (((((w >> 16u64) & 0xFF) as u8) as u64) << 16u64) | (((((w >> 24u64) & 0xFF) as u8) as u64) << 24u64)
        | (((((w >> 32u64) & 0xFF) as u8) as u64) << 32u64) | (((((w >> 40u64) & 0xFF) as u8) as u64) << 40u64)
        | (((((w >> 48u64) & 0xFF) as u8) as u64) << 48u64) | (((((w >> 56u64) & 0xFF) as u8) as u64) << 56u64))
        == w) by (bit_vector);
}

/// Decoding the framebuffer's bytes gives back the same rows.
pub proof fn lemma_display_round_trip(rows: Seq<u64>)
    requires
        rows.len() == 32,
    ensures
        decode_display(encode_display(rows)) == rows,
{
    let e = encode_display(rows);
    assert forall|r: int| 0 <= r < 32 implies #[trigger] read_le64(e, 8 * r) == rows[r] by {
        let b = le64(rows[r]);
        assert forall|i: int| 0 <= i < 8 implies #[trigger] e[8 * r + i] == b[i] by {
            assert((8 * r + i) / 8 == r);
            assert((8 * r + i) % 8 == i);
        }
        assert(e[8 * r] == b[0]);
        assert(e[8 * r + 1] == b[1]);
        assert(e[8 * r + 2] == b[2]);
        assert(e[8 * r + 3] == b[3]);
        assert(e[8 * r + 4] == b[4]);
        assert(e[8 * r + 5] == b[5]);
        assert(e[8 * r + 6] == b[6]);
        assert(e[8 * r + 7] == b[7]);
        lemma_le64_round_trip(rows[r]);
    }
    assert(decode_display(e) =~= rows);
}

/// The monochrome framebuffer and the state of the sixteen keys.
pub struct Renderer {
    pixel_buffer: Vec<u64>,
    keys_pressed: Vec<bool>,
}

impl Renderer {
    pub closed spec fn screen(&self) -> Seq<Seq<bool>> {
        screen_of(self.pixel_buffer@)
    }

    pub closed spec fn keys(&self) -> Seq<bool> {
        self.keys_pressed@
    }

    pub closed spec fn rows(&self) -> Seq<u64> {
        self.pixel_buffer@
    }

    pub closed spec fn wf(&self) -> bool {
        self.pixel_buffer@.len() == 32 && self.keys_pressed@.len() == 16
    }

    pub proof fn lemma_wf(&self)
        requires
            self.wf(),
        ensures
            self.keys().len() == 16,
            self.rows().len() == 32,
            self.screen() == screen_of(self.rows()),
    {
    }

    /// Toggles the pixel at column `x`, row `y` and returns whether it was
    /// lit before; coordinates off the screen are ignored.
    pub fn draw(&mut self, x: u8, y: u8) -> (was_lit: bool)
        requires
            old(self).wf(),
        ensures
            final(self).wf(),
            final(self).keys() == old(self).keys(),
            (x < 64 && y < 32) ==> final(self).screen() == old(self).screen().update(
                y as int,
                old(self).screen()[y as int].update(x as int, !old(self).screen()[y as int][x as int]),
            ),
            (x < 64 && y < 32) ==> was_lit == old(self).screen()[y as int][x as int],
            !(x < 64 && y < 32) ==> final(self).screen() == old(self).screen() && !was_lit,
    {
        if y as u32 >= DISPLAY_HEIGHT || x as u32 >= DISPLAY_WIDTH {
            return false;
        }
        let row = y as usize;
        let col = x as u64;
        let ghost before = self.screen();
        let w = self.pixel_buffer[row];
        let was_lit = (w >> col) & 1 == 1;
        self.pixel_buffer.set(row, w ^ (1u64 << col));
        proof {
            let target = before.update(y as int, before[y as int].update(x as int, !before[y as int][x as int]));
            assert forall|r: int, c: int| 0 <= r < 32 && 0 <= c < 64 implies
                #[trigger] self.screen()[r][c] == target[r][c] by {
                if r == y as int {
                    lemma_toggle_bit(w, col, c as u64);
                }
            }
            assert forall|r: int| 0 <= r < 32 implies #[trigger] self.screen()[r] == target[r] by {
                assert(self.screen()[r] =~= target[r]);
            }
            assert(self.screen() =~= target);
        }
        was_lit
    }

    /// Turns every pixel off.
    pub fn clear_screen(&mut self)
        requires
            old(self).wf(),
        ensures
            final(self).wf(),
            final(self).keys() == old(self).keys(),
            final(self).screen() == blank_screen(),
    {
        let mut i: usize = 0;
        while i < self.pixel_buffer.len()
            invariant
                self.wf(),
                self.keys() == old(self).keys(),
                0 <= i <= 32,
                forall|r: int| 0 <= r < i ==> self.pixel_buffer@[r] == 0u64,
            decreases 32 - i,
        {
            self.pixel_buffer.set(i, 0);
            i += 1;
        }
        proof {
            assert forall|r: int, c: int| 0 <= r < 32 && 0 <= c < 64 implies
                !#[trigger] self.screen()[r][c] by {
                lemma_zero_row(c as u64);
            }
            assert forall|r: int| 0 <= r < 32 implies #[trigger] self.screen()[r] == blank_screen()[r] by {
                assert(self.screen()[r] =~= blank_screen()[r]);
            }
            assert(self.screen() =~= blank_screen());
        }
    }

    /// Whether key `key` (0..=15) is down; no other key value is ever down.
    pub fn is_key_pressed(&self, key: u8) -> (r: bool)
        requires
            self.wf(),
        ensures
            r == (key < 16 && self.keys()[key as int]),
    {
        if key as usize >= KEY_COUNT {
            return false;
        }
        self.keys_pressed[key as usize]
    }

    /// Whether any key is down.
    pub fn is_any_key_pressed(&self) -> (r: bool)
        requires
            self.wf(),
        ensures
            r == any_pressed(self.keys()),
    {
        let mut k: usize = 0;
        while k < KEY_COUNT
            invariant
                self.wf(),
                0 <= k <= 16,
                forall|j: int| 0 <= j < k ==> !self.keys()[j],
            decreases 16 - k,
        {
            if self.keys_pressed[k] {
                return true;
            }
            k += 1;
        }
        false
    }

    /// The lowest key value that is down, or 0 when none is.
    pub fn get_first_key_pressed(&self) -> (r: u8)
        requires
            self.wf(),
        ensures
            r == first_pressed_from(self.keys(), 0),
            r < 16,
            any_pressed(self.keys()) ==> self.keys()[r as int],
    {
        let mut k: usize = 0;
        while k < KEY_COUNT
            invariant
                self.wf(),
                0 <= k <= 16,
                forall|j: int| 0 <= j < k ==> !self.keys()[j],
                first_pressed_from(self.keys(), 0) == first_pressed_from(self.keys(), k as int),
            decreases 16 - k,
        {
            if self.keys_pressed[k] {
                return k as u8;
            }
            k += 1;
        }
        0
    }

    /// Records that key `key` (0..=15) went down (`down`) or up.
    pub fn set_key(&mut self, key: u8, down: bool)
        requires
            old(self).wf(),
            key < 16,
        ensures
            final(self).wf(),
            final(self).screen() == old(self).screen(),
            final(self).keys() == old(self).keys().update(key as int, down),
    {
        self.keys_pressed.set(key as usize, down);
    }

    /// Writes the framebuffer rows at the save's write position.
    pub fn save_state(&self, save: &mut Save)
        requires
            self.wf(),
            old(save).wf(),
            old(save).write_pos() + DISPLAY_STATE_LEN <= SAVE_BUFFER_SIZE,
        ensures
            final(save).wf(),
            final(save).contents() == splice(old(save).contents(), old(save).write_pos(), encode_display(self.rows())),
            final(save).write_pos() == old(save).write_pos() + DISPLAY_STATE_LEN,
            final(save).read_pos() == old(save).read_pos(),
    {
        let mut out: Vec<u8> = Vec::new();
        let mut r: usize = 0;
        while r < 32
            invariant
                self.wf(),
                0 <= r <= 32,
                out@.len() == 8 * r,
                forall|i: int| 0 <= i < 8 * r ==> #[trigger] out@[i] == encode_display(self.rows())[i],
            decreases 32 - r,
        {
            let w = self.pixel_buffer[r];
            out.push((w & 0xFF) as u8);
            out.push(((w >> 8u64) & 0xFF) as u8);
            out.push(((w >> 16u64) & 0xFF) as u8);
            out.push(((w >> 24u64) & 0xFF) as u8);
            out.push(((w >> 32u64) & 0xFF) as u8);
            out.push(((w >> 40u64) & 0xFF) as u8);
            out.push(((w >> 48u64) & 0xFF) as u8);
            out.push(((w >> 56u64) & 0xFF) as u8);
            proof {
                assert forall|i: int| 0 <= i < 8 * (r + 1) implies #[trigger] out@[i] == encode_display(self.rows())[i] by {
                    if i >= 8 * r {
                        assert(i / 8 == r);
                        assert(i % 8 == i - 8 * r);
                    }
                }
            }
            r += 1;
        }
        assert(out@ =~= encode_display(self.rows()));
        save.write_bytes(&out);
    }

    /// Reads the framebuffer rows at the save's read position; the keys
    /// are kept.
    pub fn load_state(&mut self, save: &mut Save)
        requires
            old(self).wf(),
            old(save).wf(),
            old(save).read_pos() + DISPLAY_STATE_LEN <= SAVE_BUFFER_SIZE,
        ensures
            final(self).wf(),
            final(self).keys() == old(self).keys(),
            final(self).rows() == decode_display(
                old(save).contents().subrange(old(save).read_pos(), old(save).read_pos() + DISPLAY_STATE_LEN),
            ),
            final(save).wf(),
            final(save).contents() == old(save).contents(),
            final(save).write_pos() == old(save).write_pos(),
            final(save).read_pos() == old(save).read_pos() + DISPLAY_STATE_LEN,
    {
        proof {
            save.lemma_wf();
        }
        let ghost start = save.read_pos();
        let ghost b = save.contents().subrange(start, start + DISPLAY_STATE_LEN);
        let mut r: usize = 0;
        while r < 32
            invariant
                self.wf(),
                save.wf(),
                self.keys() == old(self).keys(),
                0 <= r <= 32,
                0 <= start,
                start == old(save).read_pos(),
                start + DISPLAY_STATE_LEN <= SAVE_BUFFER_SIZE,
                b == old(save).contents().subrange(start, start + DISPLAY_STATE_LEN),
                save.contents() == old(save).contents(),
                save.write_pos() == old(save).write_pos(),
                save.read_pos() == start + 8 * r,
                forall|k: int| 0 <= k < r ==> #[trigger] self.rows()[k] == read_le64(b, 8 * k),
            decreases 32 - r,
        {
            proof {
                save.lemma_wf();
            }
            let b0 = save.read() as u64;
            let b1 = save.read() as u64;
            let b2 = save.read() as u64;
            let b3 = save.read() as u64;
            let b4 = save.read() as u64;
            let b5 = save.read() as u64;
            let b6 = save.read() as u64;
            let b7 = save.read() as u64;
            let w = b0 | (b1 << 8u64) | (b2 << 16u64) | (b3 << 24u64) | (b4 << 32u64) | (b5 << 40u64)
                | (b6 << 48u64) | (b7 << 56u64);
            let ghost row = r as int;
            assert(w == read_le64(b, 8 * row));
            let ghost before = self.rows();
            self.pixel_buffer.set(r, w);
            assert forall|k: int| 0 <= k < row + 1 implies #[trigger] self.rows()[k] == read_le64(b, 8 * k) by {
                if k == row {
                    assert(self.rows()[k] == w);
                } else {
                    assert(before[k] == read_le64(b, 8 * k));
                    assert(self.rows()[k] == before[k]);
                }
            }
            r += 1;
        }
        assert(self.rows() =~= decode_display(b));
    }

    /// Row `row` of the framebuffer; bit `c` is the pixel in column `c`.
    pub fn row_bits(&self, row: usize) -> (r: u64)
        requires
            self.wf(),
            row < 32,
        ensures
            r == self.rows()[row as int],
            forall|c: int| 0 <= c < 64 ==> lit_bit(r, c) == #[trigger] self.screen()[row as int][c],
    {
        self.pixel_buffer[row]
    }
}

/// A blank screen with no key down.
pub fn make_renderer() -> (r: Renderer)
    ensures
        r.wf(),
        r.screen() == blank_screen(),
        forall|k: int| 0 <= k < 16 ==> !#[trigger] r.keys()[k],
{
    let mut pixel_buffer: Vec<u64> = Vec::new();
    let mut i: usize = 0;
    while i < 32
        invariant
            0 <= i <= 32,
            pixel_buffer@.len() == i,
            forall|r: int| 0 <= r < i ==> pixel_buffer@[r] == 0u64,
        decreases 32 - i,
    {
        pixel_buffer.push(0);
        i += 1;
    }
    let mut keys_pressed: Vec<bool> = Vec::new();
    let mut k: usize = 0;
    while k < KEY_COUNT
        invariant
            0 <= k <= 16,
            keys_pressed@.len() == k,
            forall|j: int| 0 <= j < k ==> !keys_pressed@[j],
        decreases 16 - k,
    {
        keys_pressed.push(false);
        k += 1;
    }
    let r = Renderer { pixel_buffer, keys_pressed };
    proof {
        assert forall|row: int, c: int| 0 <= row < 32 && 0 <= c < 64 implies
            !#[trigger] r.screen()[row][c] by {
            lemma_zero_row(c as u64);
        }
        assert forall|row: int| 0 <= row < 32 implies #[trigger] r.screen()[row] == blank_screen()[row] by {
            assert(r.screen()[row] =~= blank_screen()[row]);
        }
        assert(r.screen() =~= blank_screen());
    }
    r
}

} // verus!
