//! 64x32 one-bit-per-pixel display with XOR compositing and wraparound.
use vstd::prelude::*;

verus! {

/// Number of pixel columns.
pub const WIDTH: usize = 64;

/// Number of pixel rows.
pub const HEIGHT: usize = 32;

/// A well-formed pixel buffer: one byte per pixel, each 0 or 1, row-major.
pub open spec fn fb_wf(fb: Seq<u8>) -> bool {
    &&& fb.len() == 2048
    &&& forall|j: int| 0 <= j < fb.len() ==> fb[j] == 0 || fb[j] == 1
}

/// Buffer position touched by bit `k` of a row byte composited at `(x, y)`:
/// the row is `y` modulo 32 and the column wraps at 64.
pub open spec fn row_target(x: u8, y: u8, k: int) -> int {
    (y as int % 32) * 64 + (x as int + k) % 64
}

/// Bit `k` of `byte`, most significant first, as a pixel value.
pub open spec fn row_bit(byte: u8, k: int) -> u8 {
    (byte >> ((7 - k) as u8)) & 1
}

/// The buffer after the first `k` bits of `byte` have been XOR-composited
/// starting at `(x, y)`.
pub open spec fn draw_row_upto(fb: Seq<u8>, x: u8, y: u8, byte: u8, k: int) -> Seq<u8>
    decreases k,
{
    if k <= 0 {
        fb
    } else {
        let prev = draw_row_upto(fb, x, y, byte, k - 1);
        let t = row_target(x, y, k - 1);
        prev.update(t, prev[t] ^ row_bit(byte, k - 1))
    }
}

/// The buffer after all 8 bits of `byte` have been composited at `(x, y)`.
pub open spec fn draw_row(fb: Seq<u8>, x: u8, y: u8, byte: u8) -> Seq<u8> {
    draw_row_upto(fb, x, y, byte, 8)
}

/// Whether compositing `byte` at `(x, y)` reports a collision: some position
/// holds a lit pixel while the incoming bit is clear, judged against the
/// buffer as it stood before the row was composited.
pub open spec fn row_collides(fb: Seq<u8>, x: u8, y: u8, byte: u8) -> bool {
    exists|k: int| 0 <= k < 8 && fb[#[trigger] row_target(x, y, k)] == 1 && row_bit(byte, k) == 0
}

/// A row bit is a pixel value.
pub proof fn lemma_row_bit_is_pixel(byte: u8, k: int)
    requires
        0 <= k < 8,
    ensures
        row_bit(byte, k) == 0 || row_bit(byte, k) == 1,
{
    let s = (7 - k) as u8;
    assert((byte >> s) & 1 == 0 || (byte >> s) & 1 == 1) by (bit_vector);
}

/// Distinct bits of one row land on distinct buffer positions.
pub proof fn lemma_row_targets_distinct(x: u8, y: u8, k1: int, k2: int)
    requires
        0 <= k1 < 8,
        0 <= k2 < 8,
        k1 != k2,
    ensures
        row_target(x, y, k1) != row_target(x, y, k2),
{
    let a1 = (k1 + 1) as u8;
    let a2 = (k2 + 1) as u8;
    assert((x as int + (a1 - 1)) % 64 != (x as int + (a2 - 1)) % 64) by (bit_vector)
        requires
            1 <= a1 <= 8,
            1 <= a2 <= 8,
            a1 != a2,
    ;
}

/// Positions outside the first `k` targets are untouched by the partial draw.
pub proof fn lemma_draw_row_upto_untouched(fb: Seq<u8>, x: u8, y: u8, byte: u8, k: int, j: int)
    requires
        fb_wf(fb),
        0 <= j < fb.len(),
        0 <= k <= 8,
        forall|k2: int| 0 <= k2 < k ==> #[trigger] row_target(x, y, k2) != j,
    ensures
        draw_row_upto(fb, x, y, byte, k)[j] == fb[j],
    decreases k,
{
    if k > 0 {
        lemma_draw_row_upto_untouched(fb, x, y, byte, k - 1, j);
        lemma_draw_row_upto_wf(fb, x, y, byte, k - 1);
        assert(row_target(x, y, k - 1) != j);
    }
}

/// A partial draw keeps the buffer well formed.
pub proof fn lemma_draw_row_upto_wf(fb: Seq<u8>, x: u8, y: u8, byte: u8, k: int)
    requires
        fb_wf(fb),
        0 <= k <= 8,
    ensures
        fb_wf(draw_row_upto(fb, x, y, byte, k)),
    decreases k,
{
    if k > 0 {
        lemma_draw_row_upto_wf(fb, x, y, byte, k - 1);
        let prev = draw_row_upto(fb, x, y, byte, k - 1);
        let t = row_target(x, y, k - 1);
        lemma_row_bit_is_pixel(byte, k - 1);
        assert(0 <= t < 2048);
        let p = prev[t];
        let b = row_bit(byte, k - 1);
        assert(p <= 1 && b <= 1 ==> (p ^ b) <= 1) by (bit_vector);
    }
}

/// Law: compositing any byte onto a row whose existing pixels are all clear
/// never reports a collision.
pub proof fn lemma_draw_on_clear_never_collides(fb: Seq<u8>, x: u8, y: u8, byte: u8)
    requires
        forall|k: int| 0 <= k < 8 ==> fb[#[trigger] row_target(x, y, k)] == 0,
    ensures
        !row_collides(fb, x, y, byte),
{
}

/// Law: an incoming clear bit over an existing lit pixel reports a collision.
pub proof fn lemma_clear_bit_over_lit_pixel_collides(fb: Seq<u8>, x: u8, y: u8, byte: u8, k: int)
    requires
        0 <= k < 8,
        fb[row_target(x, y, k)] == 1,
        row_bit(byte, k) == 0,
    ensures
        row_collides(fb, x, y, byte),
{
}

/// The display: a pixel buffer of `WIDTH * HEIGHT` bytes, each 0 or 1.
pub struct Framebuffer {
    buffer: Vec<u8>,
}

impl View for Framebuffer {
    type V = Seq<u8>;

    /// The pixels in row-major order.
    closed spec fn view(&self) -> Seq<u8> {
        self.buffer@
    }
}

impl Framebuffer {
    /// The buffer is well formed.
    pub open spec fn wf(&self) -> bool {
        fb_wf(self@)
    }

    /// Creates an all-clear display.
    pub fn new() -> (fb: Self)
        ensures
            fb.wf(),
            fb@ == Seq::new(2048, |i: int| 0u8),
    {
        let fb = Framebuffer { buffer: vec![0u8; WIDTH * HEIGHT] };
        proof {
            assert(fb@ =~= Seq::new(2048, |i: int| 0u8));
        }
        fb
    }

    /// Clears every pixel.
    pub fn clear(&mut self)
        ensures
            final(self).wf(),
            final(self)@ == Seq::new(2048, |i: int| 0u8),
    {
        self.buffer = vec![0u8; WIDTH * HEIGHT];
        proof {
            assert(self@ =~= Seq::new(2048, |i: int| 0u8));
        }
    }

    /// The pixels in row-major order, one byte per pixel.
    pub fn get_buffer(&self) -> (r: &[u8])
        ensures
            r@ == self@,
    {
        self.buffer.as_slice()
    }

    /// Buffer position of the pixel at column `x`, row `y`.
    pub fn xy_to_index(x: usize, y: usize) -> (r: usize)
        requires
            x < WIDTH,
            y < HEIGHT,
        ensures
            r == y * 64 + x,
    {
        y * WIDTH + x
    }

    /// Composites `byte` as 8 pixels starting at column `x` of row `y`, most
    /// significant bit first, wrapping at the display edges; each incoming bit
    /// XORs into the existing pixel. Reports a collision when some position
    /// held a lit pixel while the incoming bit was clear.
    pub fn draw(&mut self, x: u8, y: u8, byte: u8) -> (r: bool)
        requires
            old(self).wf(),
        ensures
            final(self).wf(),
            final(self)@ == draw_row(old(self)@, x, y, byte),
            r == row_collides(old(self)@, x, y, byte),
    {
        let ghost fb0 = self@;
        let y_row: usize = (y as usize) % HEIGHT;
        let mut collided = false;
        let mut k: usize = 0;
        while k < 8
            invariant
                fb_wf(fb0),
                fb_wf(self@),
                k <= 8,
                y_row == y as int % 32,
                self@ == draw_row_upto(fb0, x, y, byte, k as int),
                collided == exists|k2: int|
                    0 <= k2 < k && fb0[#[trigger] row_target(x, y, k2)] == 1 && row_bit(
                        byte,
                        k2,
                    ) == 0,
            decreases 8 - k,
        {
            let xk = ((x as usize) + k) % WIDTH;
            let index = Self::xy_to_index(xk, y_row);
            let shift: u8 = (7 - k) as u8;
            let bit = (byte >> shift) & 1;
            proof {
                assert(index == row_target(x, y, k as int));
                assert(bit == row_bit(byte, k as int));
                assert forall|k2: int| 0 <= k2 < k implies #[trigger] row_target(x, y, k2)
                    != index by {
                    lemma_row_targets_distinct(x, y, k2, k as int);
                }
                lemma_draw_row_upto_untouched(fb0, x, y, byte, k as int, index as int);
            }
            let existing = self.buffer[index];
            if existing == 1 && bit == 0 {
                collided = true;
            }
            proof {
                lemma_row_bit_is_pixel(byte, k as int);
                assert(existing <= 1 && bit <= 1 ==> (existing ^ bit) <= 1) by (bit_vector);
            }
            self.buffer[index] = existing ^ bit;
            k = k + 1;
        }
        collided
    }
}

} // verus!
