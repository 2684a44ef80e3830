//! A packed monochrome bit grid with wrap-around XOR sprite blitting,
//! collision reporting and a per-pixel query.

use vstd::prelude::*;

verus! {

use vstd::arithmetic::div_mod::lemma_fundamental_div_mod_converse;

/// The mathematical state of a display: dimensions and the packed bit grid,
/// one bit per pixel, row-major, most-significant bit first in each byte.
#[verifier::ext_equal]
pub struct ScreenState {
    pub width: u8,
    pub height: u8,
    pub buffer: Seq<u8>,
}

impl ScreenState {
    /// Dimensions are positive, the width is a whole number of bytes, and the
    /// buffer holds exactly one bit per pixel.
    pub open spec fn wf(self) -> bool {
        &&& self.width > 0
        &&& self.width % 8 == 0
        &&& self.height > 0
        &&& self.buffer.len() == self.byte_width() * self.height
    }

    /// Number of buffer bytes per pixel row.
    pub open spec fn byte_width(self) -> int {
        self.width as int / 8
    }
}

/// A display of the given dimensions with every pixel clear.
pub open spec fn blank_screen(width: u8, height: u8) -> ScreenState {
    ScreenState {
        width,
        height,
        buffer: Seq::new((width as int / 8 * height as int) as nat, |i: int| 0u8),
    }
}

/// The bits of a sprite row that land in the first destination byte: the row
/// shifted right by the horizontal bit offset.
pub open spec fn first_slice(v: u8, shift: u8) -> u8 {
    v >> shift
}

/// The bits of a sprite row that spill into the following byte; none when the
/// row is byte-aligned.
pub open spec fn second_slice(v: u8, shift: u8) -> u8 {
    if shift == 0 {
        0u8
    } else {
        v << (8 - shift) as u8
    }
}

/// One sprite row XOR-blitted into the buffer at pixel row `row` and
/// horizontal pixel offset `x`; the spill byte is written only if it still
/// lies within the same pixel row.
pub open spec fn row_write(buf: Seq<u8>, bw: int, row: int, x: int, v: u8) -> Seq<u8> {
    let shift = (x % 8) as u8;
    let i1 = row * bw + x / 8;
    let b1 = buf.update(i1, buf[i1] ^ first_slice(v, shift));
    if x / 8 + 1 < bw {
        b1.update(i1 + 1, b1[i1 + 1] ^ second_slice(v, shift))
    } else {
        b1
    }
}

/// Whether XOR-blitting one sprite row at this position flips some bit from
/// set to clear: the pre-write bytes and the incoming bits overlap.
pub open spec fn row_collides(buf: Seq<u8>, bw: int, row: int, x: int, v: u8) -> bool {
    let shift = (x % 8) as u8;
    let i1 = row * bw + x / 8;
    ||| (buf[i1] & first_slice(v, shift)) != 0
    ||| (x / 8 + 1 < bw && (buf[i1 + 1] & second_slice(v, shift)) != 0)
}

/// The buffer after blitting the first `k` sprite rows at origin (x, y); rows
/// that would fall past the bottom edge are dropped.
pub open spec fn draw_rows(
    buf: Seq<u8>,
    bw: int,
    h: int,
    x: int,
    y: int,
    sprite: Seq<u8>,
    k: int,
) -> Seq<u8>
    decreases k,
{
    if k <= 0 {
        buf
    } else {
        let prev = draw_rows(buf, bw, h, x, y, sprite, k - 1);
        if y + (k - 1) < h {
            row_write(prev, bw, y + (k - 1), x, sprite[k - 1])
        } else {
            prev
        }
    }
}

/// Whether blitting the first `k` sprite rows flips any bit from set to
/// clear, each row judged against the buffer as already blitted so far.
pub open spec fn draw_rows_collide(
    buf: Seq<u8>,
    bw: int,
    h: int,
    x: int,
    y: int,
    sprite: Seq<u8>,
    k: int,
) -> bool
    decreases k,
{
    if k <= 0 {
        false
    } else {
        ||| draw_rows_collide(buf, bw, h, x, y, sprite, k - 1)
        ||| (y + (k - 1) < h && row_collides(
            draw_rows(buf, bw, h, x, y, sprite, k - 1),
            bw,
            y + (k - 1),
            x,
            sprite[k - 1],
        ))
    }
}

/// The display after drawing `sprite` with its origin at (x, y); the origin
/// wraps modulo the display size before drawing.
pub open spec fn spec_draw(s: ScreenState, x: u8, y: u8, sprite: Seq<u8>) -> ScreenState {
    ScreenState {
        buffer: draw_rows(
            s.buffer,
            s.byte_width(),
            s.height as int,
            x as int % s.width as int,
            y as int % s.height as int,
            sprite,
            sprite.len() as int,
        ),
        ..s
    }
}

/// Whether drawing `sprite` with its origin at (x, y) flips any pixel from
/// set to clear.
pub open spec fn spec_draw_collides(s: ScreenState, x: u8, y: u8, sprite: Seq<u8>) -> bool {
    draw_rows_collide(
        s.buffer,
        s.byte_width(),
        s.height as int,
        x as int % s.width as int,
        y as int % s.height as int,
        sprite,
        sprite.len() as int,
    )
}

/// The pixel at column `x`, row `y`: one bit of the packed buffer.
pub open spec fn pixel(s: ScreenState, x: int, y: int) -> u8 {
    (s.buffer[y * s.byte_width() + x / 8] >> (7 - x % 8) as u8) & 1
}

/// The buffer indices one sprite row writes to lie inside a buffer of
/// `bw * h` bytes whenever the row is on screen.
proof fn lemma_row_indices_in_range(bw: int, h: int, x: int, row: int)
    requires
        bw > 0,
        0 <= x,
        x / 8 < bw,
        0 <= row < h,
    ensures
        0 <= row * bw + x / 8,
        row * bw + x / 8 < bw * h,
        x / 8 + 1 < bw ==> row * bw + x / 8 + 1 < bw * h,
        (row * bw + x / 8) / bw == row,
        x / 8 + 1 < bw ==> (row * bw + x / 8 + 1) / bw == row,
{
    assert(0 <= row * bw + x / 8 && row * bw + x / 8 + 1 <= bw * h && (x / 8 + 1 < bw ==> row * bw
        + x / 8 + 1 < bw * h)) by (nonlinear_arith)
        requires
            bw > 0,
            0 <= x / 8 < bw,
            0 <= row < h,
    ;
    lemma_fundamental_div_mod_converse(row * bw + x / 8, bw, row, x / 8);
    if x / 8 + 1 < bw {
        lemma_fundamental_div_mod_converse(row * bw + x / 8 + 1, bw, row, x / 8 + 1);
    }
}

/// Drawing never changes the buffer size.
proof fn lemma_draw_rows_len(
    buf: Seq<u8>,
    bw: int,
    h: int,
    x: int,
    y: int,
    sprite: Seq<u8>,
    k: int,
)
    requires
        bw > 0,
        0 <= x,
        x / 8 < bw,
        0 <= y,
        buf.len() == bw * h,
    ensures
        draw_rows(buf, bw, h, x, y, sprite, k).len() == buf.len(),
    decreases k,
{
    if k > 0 {
        lemma_draw_rows_len(buf, bw, h, x, y, sprite, k - 1);
        let row = y + (k - 1);
        if row < h {
            lemma_row_indices_in_range(bw, h, x, row);
        }
    }
}

/// Blitting rows `k1` to `k2 - 1` leaves every byte outside those pixel rows
/// unchanged.
proof fn lemma_draw_rows_frame(
    buf: Seq<u8>,
    bw: int,
    h: int,
    x: int,
    y: int,
    sprite: Seq<u8>,
    k1: int,
    k2: int,
    idx: int,
)
    requires
        bw > 0,
        0 <= x,
        x / 8 < bw,
        0 <= y,
        0 <= k1 <= k2,
        buf.len() == bw * h,
        0 <= idx < buf.len(),
        !(y + k1 <= idx / bw < y + k2),
    ensures
        draw_rows(buf, bw, h, x, y, sprite, k2)[idx] == draw_rows(
            buf,
            bw,
            h,
            x,
            y,
            sprite,
            k1,
        )[idx],
    decreases k2 - k1,
{
    if k2 > k1 {
        lemma_draw_rows_frame(buf, bw, h, x, y, sprite, k1, k2 - 1, idx);
        lemma_draw_rows_len(buf, bw, h, x, y, sprite, k2 - 1);
        let row = y + (k2 - 1);
        if row < h {
            lemma_row_indices_in_range(bw, h, x, row);
        }
    }
}

/// After a full blit, a byte of an on-screen sprite row holds the original
/// byte XOR the row's slice.
proof fn lemma_draw_rows_row_value(
    buf: Seq<u8>,
    bw: int,
    h: int,
    x: int,
    y: int,
    sprite: Seq<u8>,
    n: int,
    j: int,
)
    requires
        bw > 0,
        0 <= x,
        x / 8 < bw,
        0 <= y,
        0 <= j < n <= sprite.len(),
        y + j < h,
        buf.len() == bw * h,
    ensures
        draw_rows(buf, bw, h, x, y, sprite, n)[(y + j) * bw + x / 8] == (buf[(y + j) * bw + x / 8]
            ^ first_slice(sprite[j], (x % 8) as u8)),
        x / 8 + 1 < bw ==> draw_rows(buf, bw, h, x, y, sprite, n)[(y + j) * bw + x / 8 + 1] == (
        buf[(y + j) * bw + x / 8 + 1] ^ second_slice(sprite[j], (x % 8) as u8)),
{
    let row = y + j;
    let i1 = row * bw + x / 8;
    lemma_row_indices_in_range(bw, h, x, row);
    lemma_draw_rows_len(buf, bw, h, x, y, sprite, j);
    lemma_draw_rows_frame(buf, bw, h, x, y, sprite, 0, j, i1);
    lemma_draw_rows_frame(buf, bw, h, x, y, sprite, j + 1, n, i1);
    if x / 8 + 1 < bw {
        lemma_draw_rows_frame(buf, bw, h, x, y, sprite, 0, j, i1 + 1);
        lemma_draw_rows_frame(buf, bw, h, x, y, sprite, j + 1, n, i1 + 1);
    }
}

/// If the whole blit reported no collision, no single on-screen row collided.
proof fn lemma_draw_rows_collide_step(
    buf: Seq<u8>,
    bw: int,
    h: int,
    x: int,
    y: int,
    sprite: Seq<u8>,
    n: int,
    j: int,
)
    requires
        0 <= j < n,
        y + j < h,
        !draw_rows_collide(buf, bw, h, x, y, sprite, n),
    ensures
        !row_collides(draw_rows(buf, bw, h, x, y, sprite, j), bw, y + j, x, sprite[j]),
    decreases n,
{
    if j < n - 1 {
        lemma_draw_rows_collide_step(buf, bw, h, x, y, sprite, n - 1, j);
    }
}

/// A collision among the first `k1` rows stays a collision among any more.
proof fn lemma_draw_rows_collide_mono(
    buf: Seq<u8>,
    bw: int,
    h: int,
    x: int,
    y: int,
    sprite: Seq<u8>,
    k1: int,
    k2: int,
)
    requires
        0 <= k1 <= k2,
        draw_rows_collide(buf, bw, h, x, y, sprite, k1),
    ensures
        draw_rows_collide(buf, bw, h, x, y, sprite, k2),
    decreases k2 - k1,
{
    if k2 > k1 {
        lemma_draw_rows_collide_mono(buf, bw, h, x, y, sprite, k1, k2 - 1);
    }
}

/// XOR with fresh bits sets exactly those bits.
proof fn lemma_xor_sets_bits(b: u8, m: u8)
    by (bit_vector)
    requires
        (b & m) == 0,
    ensures
        ((b ^ m) & m) == m,
{
}

/// Whether one sprite row shows at least one visible bit at horizontal pixel
/// offset `xm`: some incoming bit lands on the screen.
pub open spec fn visible_row_bits(s: ScreenState, xm: int, v: u8) -> bool {
    ||| first_slice(v, (xm % 8) as u8) != 0
    ||| (xm / 8 + 1 < s.byte_width() && second_slice(v, (xm % 8) as u8) != 0)
}

/// Whether some row of the sprite lands on the screen with a visible set bit
/// when drawn at origin (x, y).
pub open spec fn sprite_visible(s: ScreenState, x: u8, y: u8, sprite: Seq<u8>) -> bool {
    exists|j: int|
        0 <= j < sprite.len() && (y as int % s.height as int) + j < s.height as int
            && visible_row_bits(s, x as int % s.width as int, sprite[j])
}

/// Drawing the same sprite a second time at the same origin reports a
/// collision, provided the first drawing reported none (so its visible bits
/// went onto clear pixels) and the sprite shows at least one visible bit.
pub proof fn lemma_redraw_collides(s: ScreenState, x: u8, y: u8, sprite: Seq<u8>)
    requires
        s.wf(),
        !spec_draw_collides(s, x, y, sprite),
        sprite_visible(s, x, y, sprite),
    ensures
        spec_draw_collides(spec_draw(s, x, y, sprite), x, y, sprite),
{
    let xm = x as int % s.width as int;
    let ym = y as int % s.height as int;
    let bw = s.byte_width();
    let h = s.height as int;
    let n = sprite.len() as int;
    let buf0 = s.buffer;
    let buf1 = draw_rows(buf0, bw, h, xm, ym, sprite, n);
    let j = choose|j: int|
        0 <= j < sprite.len() && ym + j < h && visible_row_bits(s, xm, sprite[j]);
    let v = sprite[j];
    let shift = (xm % 8) as u8;
    let fs = first_slice(v, shift);
    let ss = second_slice(v, shift);
    let row = ym + j;
    let i1 = row * bw + xm / 8;

    assert(xm / 8 < bw) by {
        assert(xm < 8 * bw);
    };
    lemma_row_indices_in_range(bw, h, xm, row);
    lemma_draw_rows_len(buf0, bw, h, xm, ym, sprite, n);
    lemma_draw_rows_len(buf1, bw, h, xm, ym, sprite, j);

    // what the first blit left in row j's bytes
    lemma_draw_rows_row_value(buf0, bw, h, xm, ym, sprite, n, j);
    // the first blit did not collide at row j, so its bits landed on clear pixels
    lemma_draw_rows_collide_step(buf0, bw, h, xm, ym, sprite, n, j);
    lemma_draw_rows_frame(buf0, bw, h, xm, ym, sprite, 0, j, i1);
    if xm / 8 + 1 < bw {
        lemma_draw_rows_frame(buf0, bw, h, xm, ym, sprite, 0, j, i1 + 1);
    }
    assert((buf0[i1] & fs) == 0);
    lemma_xor_sets_bits(buf0[i1], fs);
    if xm / 8 + 1 < bw {
        assert((buf0[i1 + 1] & ss) == 0);
        lemma_xor_sets_bits(buf0[i1 + 1], ss);
    }

    // the second blit finds those bits set at row j
    lemma_draw_rows_frame(buf1, bw, h, xm, ym, sprite, 0, j, i1);
    if xm / 8 + 1 < bw {
        lemma_draw_rows_frame(buf1, bw, h, xm, ym, sprite, 0, j, i1 + 1);
    }
    assert(row_collides(draw_rows(buf1, bw, h, xm, ym, sprite, j), bw, row, xm, v));
    assert(draw_rows_collide(buf1, bw, h, xm, ym, sprite, j + 1));
    lemma_draw_rows_collide_mono(buf1, bw, h, xm, ym, sprite, j + 1, n);
}

/// The result of a drawing depends only on the origin taken modulo the
/// display size: an origin of (width, height) lands at (0, 0).
pub proof fn lemma_draw_origin_wraps(s: ScreenState, x: u8, y: u8, x2: u8, y2: u8, sprite: Seq<u8>)
    requires
        s.wf(),
        x % s.width == x2 % s.width,
        y % s.height == y2 % s.height,
    ensures
        spec_draw(s, x, y, sprite) == spec_draw(s, x2, y2, sprite),
        spec_draw_collides(s, x, y, sprite) == spec_draw_collides(s, x2, y2, sprite),
{
}

/// A display whose buffer bytes are all zero shows every pixel clear.
pub proof fn lemma_blank_screen_pixels(s: ScreenState, x: int, y: int)
    requires
        s.wf(),
        0 <= x < s.width,
        0 <= y < s.height,
        forall|k: int| 0 <= k < s.buffer.len() ==> s.buffer[k] == 0,
    ensures
        pixel(s, x, y) == 0,
{
    let bw = s.byte_width();
    assert(x / 8 < bw) by {
        assert(x < 8 * bw);
    };
    assert(0 <= y * bw + x / 8 < bw * (s.height as int)) by (nonlinear_arith)
        requires
            0 <= y < s.height as int,
            0 <= x / 8 < bw,
    ;
    assert(s.buffer[y * bw + x / 8] == 0);
    let sh = (7 - x % 8) as u8;
    assert(((0u8 >> sh) & 1) == 0) by (bit_vector);
}

/// A packed monochrome frame buffer.
pub struct Display {
    width: u8,
    height: u8,
    buffer: Vec<u8>,
}

impl View for Display {
    type V = ScreenState;

    closed spec fn view(&self) -> ScreenState {
        ScreenState { width: self.width, height: self.height, buffer: self.buffer@ }
    }
}

/// Whether any bit lane is set in `before` and clear in `after`.
fn check_collide(before: u8, after: u8) -> (r: bool)
    ensures
        r == ((before & !after) != 0),
{
    (before & !after) != 0
}

/// XOR against a byte flips set bits to clear exactly where the byte and the
/// incoming bits overlap.
proof fn lemma_xor_collide(b: u8, v: u8)
    by (bit_vector)
    ensures
        (b & !(b ^ v)) == (b & v),
{
}

impl Display {
    /// A cleared display; the width must be a positive multiple of 8 and the
    /// height positive.
    pub fn new(width: u8, height: u8) -> (d: Display)
        requires
            width > 0,
            width % 8 == 0,
            height > 0,
        ensures
            d@ == blank_screen(width, height),
            d@.wf(),
    {
        proof {
            assert((width as int) / 8 * (height as int) <= 31 * 255) by (nonlinear_arith)
                requires
                    width <= 255,
                    height <= 255,
            ;
        }
        let count = (width as usize) / 8 * (height as usize);
        let mut buffer: Vec<u8> = Vec::new();
        while buffer.len() < count
            invariant
                buffer@.len() <= count,
                buffer@ == Seq::new(buffer@.len(), |i: int| 0u8),
            decreases count - buffer@.len(),
        {
            buffer.push(0);
            proof {
                assert(buffer@ =~= Seq::new(buffer@.len(), |i: int| 0u8));
            }
        }
        let d = Display { width, height, buffer };
        proof {
            assert(d@ =~= blank_screen(width, height));
        }
        d
    }

    /// Sets every pixel to off; the dimensions are unchanged.
    pub fn clear(&mut self)
        ensures
            final(self)@ == (ScreenState {
                buffer: Seq::new(old(self)@.buffer.len(), |i: int| 0u8),
                ..old(self)@
            }),
    {
        let n = self.buffer.len();
        let mut idx: usize = 0;
        while idx < n
            invariant
                idx <= n,
                self.buffer@.len() == n,
                self.width == old(self).width,
                self.height == old(self).height,
                forall|k: int| 0 <= k < idx ==> self.buffer@[k] == 0,
            decreases n - idx,
        {
            self.buffer[idx] = 0;
            idx = idx + 1;
        }
        proof {
            assert(self.buffer@ =~= Seq::new(old(self)@.buffer.len(), |i: int| 0u8));
        }
    }

    /// Blits a sprite of 8-pixel-wide rows at origin (x, y) by exclusive-or
    /// composition; the origin wraps modulo the display size, rows past the
    /// bottom edge are dropped, and the spill past the right byte seam is
    /// dropped. Returns whether any pixel flipped from set to clear.
    pub fn draw(&mut self, x: u8, y: u8, sprite: &[u8]) -> (collide: bool)
        requires
            old(self)@.wf(),
        ensures
            final(self)@ == spec_draw(old(self)@, x, y, sprite@),
            collide == spec_draw_collides(old(self)@, x, y, sprite@),
            final(self)@.wf(),
    {
        let x = x % self.width;
        let y = y % self.height;

        let mut collide = false;

        let byte_width = (self.width as usize) / 8;
        let shift = x % 8;
        let first_part = (x as usize) / 8;

        let ghost bw = self@.byte_width();
        let ghost h = self@.height as int;
        let ghost buf0 = self@.buffer;

        proof {
            assert(first_part < byte_width) by {
                assert(x < 8 * bw);
            };
        }

        let mut i: usize = 0;
        while i < sprite.len()
            invariant
                i <= sprite@.len(),
                self.width == old(self).width,
                self.height == old(self).height,
                old(self)@.wf(),
                x < self.width,
                y < self.height,
                bw == old(self)@.byte_width(),
                h == old(self)@.height as int,
                buf0 == old(self)@.buffer,
                byte_width == bw,
                shift == x as int % 8,
                first_part == x as int / 8,
                first_part < byte_width,
                self.buffer@.len() == buf0.len(),
                buf0.len() == bw * h,
                self.buffer@ == draw_rows(buf0, bw, h, x as int, y as int, sprite@, i as int),
                collide == draw_rows_collide(buf0, bw, h, x as int, y as int, sprite@, i as int),
            decreases sprite@.len() - i,
        {
            let sprite_value = sprite[i];
            if i < (self.height as usize) - (y as usize) {
                let y_curr = (y as usize) + i;
                let ghost prev = self.buffer@;
                proof {
                    assert(y_curr * byte_width + first_part < bw * h && y_curr * byte_width
                        + first_part <= 255 * 31 + 31) by (nonlinear_arith)
                        requires
                            0 <= y_curr < h,
                            0 <= first_part < byte_width,
                            byte_width == bw,
                            h <= 255,
                            bw <= 31,
                    ;
                }
                let idx1 = y_curr * byte_width + first_part;
                let first_before = self.buffer[idx1];
                let first_after = first_before ^ (sprite_value >> shift);
                self.buffer[idx1] = first_after;

                if first_part + 1 < byte_width {
                    let second_value: u8 = if shift == 0 {
                        0u8
                    } else {
                        sprite_value << (8 - shift)
                    };
                    let idx2 = idx1 + 1;
                    proof {
                        assert(y_curr * byte_width + first_part + 1 < bw * h) by (nonlinear_arith)
                            requires
                                0 <= y_curr < h,
                                0 <= first_part + 1 < byte_width,
                                byte_width == bw,
                        ;
                    }
                    let second_before = self.buffer[idx2];
                    let second_after = second_before ^ second_value;
                    self.buffer[idx2] = second_after;

                    if !collide && check_collide(second_before, second_after) {
                        collide = true;
                    }
                    proof {
                        lemma_xor_collide(second_before, second_value);
                    }
                }

                if !collide && check_collide(first_before, first_after) {
                    collide = true;
                }
                proof {
                    lemma_xor_collide(first_before, sprite_value >> shift);
                    assert(self.buffer@ =~= row_write(prev, bw, y_curr as int, x as int,
                        sprite_value));
                }
            }
            i = i + 1;
        }
        collide
    }

    /// The pixel at (x, y): 1 if set, 0 if clear.
    pub fn get(&self, x: usize, y: usize) -> (r: u8)
        requires
            self@.wf(),
            x < self@.width,
            y < self@.height,
        ensures
            r == pixel(self@, x as int, y as int),
    {
        let offset = x % 8;
        let byte_width = (self.width as usize) / 8;
        proof {
            assert(x / 8 < byte_width) by {
                assert(x < 8 * byte_width);
            };
            assert(y * byte_width + x / 8 < byte_width * (self@.height as int) && y * byte_width
                + x / 8 <= 255 * 31 + 31) by (nonlinear_arith)
                requires
                    0 <= y < self@.height as int,
                    0 <= x / 8 < byte_width,
                    self@.height <= 255,
                    byte_width <= 31,
            ;
        }
        let idx = y * byte_width + x / 8;
        let byte = self.buffer[idx];
        (byte >> (7 - offset) as u8) & 1
    }

    /// Fixed height accessor.
    pub fn height(&self) -> (r: u8)
        ensures
            r == self@.height,
    {
        self.height
    }

    /// Fixed width accessor.
    pub fn width(&self) -> (r: u8)
        ensures
            r == self@.width,
    {
        self.width
    }

    /// The packed buffer, one bit per pixel, row-major, most-significant bit
    /// first; read by renderers.
    pub fn buffer(&self) -> (r: &Vec<u8>)
        ensures
            r@ == self@.buffer,
    {
        &self.buffer
    }
}

} // verus!
