//! Multi-view composition.
//!
//! The cached frames are cropped, scaled and put side by side in one RGBA picture,
//! row by row and in parallel.

use crate::layout::LayoutType;
use rayon::iter::{IntoParallelIterator, IntoParallelRefMutIterator, ParallelIterator};
use vstd::prelude::*;

verus! {

/// The part of a picture of `width` by `height` that is shown: the largest size with
/// an aspect ratio of 16 to 9, rounded down.
pub open spec fn crop_size(width: int, height: int) -> (int, int) {
    if width * 9 / 16 > height {
        (height * 16 / 9, height)
    } else {
        (width, width * 9 / 16)
    }
}

/// Where position `out` of `out_len` falls in a stretch of `crop_len`: the first
/// position on the first and the last position on the last, linear in between. The
/// position is kept in 32 bits.
pub open spec fn sample_position(out: int, out_len: int, crop_len: int) -> int {
    if out_len <= 1 {
        0
    } else {
        (out * (crop_len - 1) / (out_len - 1)) % 0x1_0000_0000
    }
}

/// A frame, three bytes (red, green, blue) to a pixel.
#[derive(Debug, Clone)]
pub struct FrameData {
    pub pixels: Vec<u8>,
    pub width: u32,
    pub height: u32,
}

impl FrameData {
    /// Whether the frame has pixels, and a byte for each of their channels.
    pub open spec fn complete(self) -> bool {
        &&& self.width > 0
        &&& self.height > 0
        &&& self.width * self.height * 3 <= self.pixels.len()
    }

    /// The pixel in column `x` of row `y`, where the frame has it and its bytes.
    pub open spec fn rgb_at(self, x: int, y: int) -> Option<(u8, u8, u8)> {
        let first = (y * self.width + x) * 3;
        if 0 <= x < self.width && 0 <= y < self.height && first + 2 < self.pixels.len() {
            Some((self.pixels[first], self.pixels[first + 1], self.pixels[first + 2]))
        } else {
            None
        }
    }

    /// The pixel shown at `(out_x, out_y)` of a view of `out_w` by `out_h`: the one at
    /// the same place in the centred crop.
    pub open spec fn cropped_rgb_at(self, out_x: int, out_y: int, out_w: int, out_h: int) -> Option<
        (u8, u8, u8),
    > {
        let (crop_w, crop_h) = crop_size(self.width as int, self.height as int);
        if out_w == 0 || out_h == 0 || crop_w == 0 || crop_h == 0 {
            None
        } else {
            self.rgb_at(
                (self.width - crop_w) / 2 + sample_position(out_x, out_w, crop_w),
                (self.height - crop_h) / 2 + sample_position(out_y, out_h, crop_h),
            )
        }
    }

    /// The pixel in column `x` of row `y`, as `(r, g, b)`. The index is computed wide
    /// enough for every resolution.
    pub fn get_rgb(&self, x: u32, y: u32) -> (rgb: Option<(u8, u8, u8)>)
        ensures
            rgb == self.rgb_at(x as int, y as int),
    {
        if x >= self.width || y >= self.height {
            return None;
        }
        assert(0 <= y * self.width + x < 0xffff_ffff * 0xffff_ffff) by (nonlinear_arith)
            requires
                0 <= x < self.width <= 0xffff_ffff,
                0 <= y < self.height <= 0xffff_ffff,
        ;
        assert(0 <= y * self.width) by (nonlinear_arith);
        let index: u64 = y as u64 * self.width as u64 + x as u64;
        if index < (self.pixels.len() / 3) as u64 {
            let first: usize = index as usize * 3;
            Some((self.pixels[first], self.pixels[first + 1], self.pixels[first + 2]))
        } else {
            None
        }
    }

    /// The pixel shown at `(out_x, out_y)` of a view of `out_w` by `out_h`, which shows
    /// the centred 16:9 crop of the frame.
    pub fn get_rgb_cropped_16_9(
        &self,
        out_x: usize,
        out_y: usize,
        out_w: usize,
        out_h: usize,
    ) -> (rgb: Option<(u8, u8, u8)>)
        ensures
            rgb == self.cropped_rgb_at(out_x as int, out_y as int, out_w as int, out_h as int),
    {
        if self.width == 0 || self.height == 0 {
            return None;
        }
        if out_w == 0 || out_h == 0 {
            return None;
        }
        let width: u64 = self.width as u64;
        let height: u64 = self.height as u64;
        let target_height: u64 = width * 9 / 16;
        let (crop_width, crop_height): (u64, u64) = if target_height > height {
            (height * 16 / 9, height)
        } else {
            (width, target_height)
        };
        if crop_width == 0 || crop_height == 0 {
            return None;
        }
        let offset_x: u64 = (width - crop_width) / 2;
        let offset_y: u64 = (height - crop_height) / 2;
        let src_x: u64 = offset_x + sample_axis(out_x, out_w, crop_width) as u64;
        let src_y: u64 = offset_y + sample_axis(out_y, out_h, crop_height) as u64;
        if src_x >= width || src_y >= height {
            return None;
        }
        self.get_rgb(src_x as u32, src_y as u32)
    }
}

/// Where position `out` of `out_len` falls in a stretch of `crop_len`.
fn sample_axis(out: usize, out_len: usize, crop_len: u64) -> (pos: u32)
    requires
        0 < crop_len <= 0xffff_ffff,
    ensures
        pos == sample_position(out as int, out_len as int, crop_len as int),
{
    if out_len <= 1 {
        0
    } else {
        assert(0 <= out * (crop_len - 1) <= u64::MAX * 0xffff_ffff) by (nonlinear_arith)
            requires
                0 <= out <= u64::MAX,
                0 <= crop_len - 1 <= 0xffff_ffff,
        ;
        let quotient: u128 = out as u128 * (crop_len - 1) as u128 / (out_len - 1) as u128;
        assert(quotient as u32 == quotient % 0x1_0000_0000) by (bit_vector);
        #[verifier::truncate]
        let pos: u32 = quotient as u32;
        pos
    }
}

/// The column of the pixel that byte `i` of a picture belongs to, where a row has
/// `row_len` pixels of four bytes.
#[verifier::opaque]
pub open spec fn byte_x(i: int, row_len: int) -> int {
    (i / 4) % row_len
}

/// The row of the pixel that byte `i` of a picture belongs to.
#[verifier::opaque]
pub open spec fn byte_y(i: int, row_len: int) -> int {
    (i / 4) / row_len
}

/// The bytes of the pixel in column `x` of row `y` are the four from
/// `(y * row_len + x) * 4` on, in the order of the channels.
pub proof fn lemma_pixel_bytes(i: int, x: int, y: int, row_len: int)
    requires
        0 <= i,
        0 <= x < row_len,
        0 <= y,
    ensures
        (byte_x(i, row_len) == x && byte_y(i, row_len) == y) <==> (y * row_len + x) * 4 <= i < (y
            * row_len + x) * 4 + 4,
        0 <= y * row_len,
{
    reveal(byte_x);
    reveal(byte_y);
    assert(0 <= y * row_len) by (nonlinear_arith)
        requires
            0 <= y,
            0 < row_len,
    ;
    let p = i / 4;
    if p == y * row_len + x {
        vstd::arithmetic::div_mod::lemma_fundamental_div_mod_converse(p, row_len, y, x);
    }
    if byte_x(i, row_len) == x && byte_y(i, row_len) == y {
        vstd::arithmetic::div_mod::lemma_fundamental_div_mod(p, row_len);
        assert(row_len * y == y * row_len) by (nonlinear_arith);
    }
}

/// Every byte of a picture belongs to a pixel of one of its rows.
proof fn lemma_byte_bounds(i: int, row_len: int, rows: int)
    requires
        0 < row_len,
        0 <= i < row_len * rows * 4,
    ensures
        0 <= byte_x(i, row_len) < row_len,
        0 <= byte_y(i, row_len) < rows,
{
    reveal(byte_x);
    reveal(byte_y);
    let p = i / 4;
    vstd::arithmetic::div_mod::lemma_fundamental_div_mod(p, row_len);
    vstd::arithmetic::div_mod::lemma_mod_bound(p, row_len);
    let q = p / row_len;
    assert(0 <= q < rows) by (nonlinear_arith)
        requires
            0 < row_len,
            p == row_len * q + p % row_len,
            0 <= p % row_len < row_len,
            0 <= p < row_len * rows,
    ;
}

/// Whether `(x, y)` lies in the rectangle of `width` by `height` at `(left, top)`.
pub open spec fn in_rect(x: int, y: int, left: int, top: int, width: int, height: int) -> bool {
    left <= x < left + width && top <= y < top + height
}

/// Whether `(x, y)` lies in the rectangle, within `thickness` pixels of its edge.
pub open spec fn in_border(
    x: int,
    y: int,
    left: int,
    top: int,
    width: int,
    height: int,
    thickness: int,
) -> bool {
    &&& in_rect(x, y, left, top, width, height)
    &&& {
        ||| x - left < thickness
        ||| left + width - 1 - x < thickness
        ||| y - top < thickness
        ||| top + height - 1 - y < thickness
    }
}

/// Sets one byte to zero.
fn clear_byte(byte: &mut u8)
    ensures
        *final(byte) == 0,
{
    *byte = 0;
}

/// Clears the first `n` bytes with rayon's `par_iter_mut` and `for_each`, which call
/// [`clear_byte`] once on each item of the slice: those bytes are zero afterwards and
/// the others are as before.
#[verifier::external_body]
fn par_clear(buffer: &mut Vec<u8>, n: usize)
    requires
        n <= old(buffer).len(),
    ensures
        final(buffer)@ == Seq::new(
            old(buffer)@.len(),
            |i: int| if i < n { 0u8 } else { old(buffer)@[i] },
        ),
{
    buffer[..n].par_iter_mut().for_each(|byte| clear_byte(byte));
}

/// Maps `0..n` with rayon's `into_par_iter`, `map` and `collect`: the vector holds what
/// `f` returned for each number, in the order of the numbers.
#[verifier::external_body]
fn par_map<R: Send, F: Fn(usize) -> R + Sync + Send>(n: usize, f: F) -> (out: Vec<R>)
    requires
        forall|k: usize| k < n ==> call_requires(f, (k,)),
    ensures
        out.len() == n,
        forall|k: int| 0 <= k < n ==> call_ensures(f, (k as usize,), #[trigger] out[k]),
{
    (0..n).into_par_iter().map(f).collect()
}

/// The number of CPUs, from `num_cpus::get`, which always returns at least one.
#[verifier::external_body]
fn cpu_count() -> (n: usize)
    ensures
        n >= 1,
{
    num_cpus::get()
}

/// Sets the pixel at `(x, y)`, where the picture and the buffer have it.
fn set_pixel(
    buffer: &mut Vec<u8>,
    output_width: usize,
    output_height: usize,
    x: usize,
    y: usize,
    rgba: [u8; 4],
)
    ensures
        final(buffer).len() == old(buffer).len(),
        forall|i: int|
            0 <= i < old(buffer).len() ==> #[trigger] final(buffer)[i] == if x < output_width && y
                < output_height && byte_x(i, output_width as int) == x && byte_y(
                i,
                output_width as int,
            ) == y && i - i % 4 + 3 < old(buffer).len() {
                rgba[i % 4]
            } else {
                old(buffer)[i]
            },
{
    if x >= output_width || y >= output_height {
        return;
    }
    let ghost ow = output_width as int;
    let ghost p = y * ow + x;
    proof {
        lemma_pixel_bytes(0, x as int, y as int, ow);
        assert(p <= u64::MAX * u64::MAX + u64::MAX) by (nonlinear_arith)
            requires
                p == y * ow + x,
                0 <= y <= u64::MAX,
                0 <= ow <= u64::MAX,
                0 <= x <= u64::MAX,
        ;
    }
    let index: u128 = y as u128 * output_width as u128 + x as u128;
    assert(index == p);
    if index < (buffer.len() / 4) as u128 {
        let first: usize = index as usize * 4;
        buffer[first] = rgba[0];
        buffer[first + 1] = rgba[1];
        buffer[first + 2] = rgba[2];
        buffer[first + 3] = rgba[3];
    }
    proof {
        assert forall|i: int| 0 <= i < buffer.len() implies #[trigger] buffer[i] == (if byte_x(i, ow)
            == x && byte_y(i, ow) == y && i - i % 4 + 3 < buffer.len() {
            rgba[i % 4]
        } else {
            old(buffer)[i]
        }) by {
            lemma_pixel_bytes(i, x as int, y as int, ow);
            if p * 4 <= i < p * 4 + 4 {
                assert(i % 4 == i - p * 4);
            }
        }
    }
}

/// Whether byte `i` of a buffer of `len` bytes belongs to a pixel of the picture all of
/// whose bytes the buffer has.
pub open spec fn shown(i: int, len: int, output_width: int, output_height: int) -> bool {
    &&& byte_x(i, output_width) < output_width
    &&& byte_y(i, output_width) < output_height
    &&& i - i % 4 + 3 < len
}

/// Draws the border of a view: the pixels of the rectangle within `thickness` of its
/// edge, as far as the picture shows them.
fn draw_view_border(
    buffer: &mut Vec<u8>,
    output_width: usize,
    output_height: usize,
    offset_x: usize,
    offset_y: usize,
    width: usize,
    height: usize,
    rgba: [u8; 4],
    thickness: usize,
)
    requires
        offset_x + width <= usize::MAX,
        offset_y + height <= usize::MAX,
    ensures
        final(buffer).len() == old(buffer).len(),
        forall|i: int|
            0 <= i < old(buffer).len() ==> #[trigger] final(buffer)[i] == if shown(
                i,
                old(buffer).len() as int,
                output_width as int,
                output_height as int,
            ) && in_border(
                byte_x(i, output_width as int),
                byte_y(i, output_width as int),
                offset_x as int,
                offset_y as int,
                width as int,
                height as int,
                thickness as int,
            ) {
                rgba[i % 4]
            } else {
                old(buffer)[i]
            },
{
    if width == 0 || height == 0 {
        return;
    }
    let ghost len = buffer.len() as int;
    let ghost ow = output_width as int;
    let ghost oh = output_height as int;
    let mut t: usize = 0;
    while t < thickness
        invariant_except_break
            t <= thickness,
            forall|i: int|
                0 <= i < len ==> #[trigger] buffer[i] == if shown(i, len, ow, oh) && in_border(
                    byte_x(i, ow),
                    byte_y(i, ow),
                    offset_x as int,
                    offset_y as int,
                    width as int,
                    height as int,
                    t as int,
                ) {
                    rgba[i % 4]
                } else {
                    old(buffer)[i]
                },
        invariant
            ow == output_width,
            oh == output_height,
            0 < width,
            0 < height,
            offset_x + width <= usize::MAX,
            offset_y + height <= usize::MAX,
            len == old(buffer).len(),
            buffer.len() == len,
        ensures
            forall|i: int|
                0 <= i < len ==> #[trigger] buffer[i] == if shown(i, len, ow, oh) && in_border(
                    byte_x(i, ow),
                    byte_y(i, ow),
                    offset_x as int,
                    offset_y as int,
                    width as int,
                    height as int,
                    thickness as int,
                ) {
                    rgba[i % 4]
                } else {
                    old(buffer)[i]
                },
        decreases thickness - t,
    {
        if t >= width || width - t <= t || t >= height || height - t <= t {
            break;
        }
        let left: usize = offset_x + t;
        let right: usize = offset_x + width - 1 - t;
        let top: usize = offset_y + t;
        let bottom: usize = offset_y + height - 1 - t;
        let ghost before = buffer@;
        let mut x: usize = left;
        while x <= right
            invariant
                ow == output_width,
                oh == output_height,
                left <= x <= right + 1,
                right < usize::MAX,
                buffer.len() == len,
                before.len() == len,
                forall|i: int|
                    0 <= i < len ==> #[trigger] buffer[i] == if shown(i, len, ow, oh) && left
                        <= byte_x(i, ow) < x && (byte_y(i, ow) == top || byte_y(i, ow) == bottom) {
                        rgba[i % 4]
                    } else {
                        before[i]
                    },
            decreases right + 1 - x,
        {
            set_pixel(buffer, output_width, output_height, x, top, rgba);
            set_pixel(buffer, output_width, output_height, x, bottom, rgba);
            x = x + 1;
        }
        let ghost lines = buffer@;
        let mut y: usize = top;
        while y <= bottom
            invariant
                ow == output_width,
                oh == output_height,
                top <= y <= bottom + 1,
                bottom < usize::MAX,
                buffer.len() == len,
                lines.len() == len,
                forall|i: int|
                    0 <= i < len ==> #[trigger] buffer[i] == if shown(i, len, ow, oh) && top
                        <= byte_y(i, ow) < y && (byte_x(i, ow) == left || byte_x(i, ow) == right) {
                        rgba[i % 4]
                    } else {
                        lines[i]
                    },
            decreases bottom + 1 - y,
        {
            set_pixel(buffer, output_width, output_height, left, y, rgba);
            set_pixel(buffer, output_width, output_height, right, y, rgba);
            y = y + 1;
        }
        t = t + 1;
    }
}

/// The black that fills a view without a frame.
pub open spec fn black() -> Seq<u8> {
    seq![0u8, 0u8, 0u8, 255u8]
}

/// What a view of `width` by `height` shows of a frame at `(x, y)`: the pixel of the
/// crop, or black where the frame has none, and opaque in either case.
pub open spec fn frame_rgba(frame: FrameData, x: int, y: int, width: int, height: int) -> Seq<u8> {
    match frame.cropped_rgb_at(x, y, width, height) {
        Some((r, g, b)) => seq![r, g, b, 255u8],
        None => black(),
    }
}

/// Whether `row` holds the bytes of row `y` of a view of `width` by `height` that shows
/// `frame`.
pub open spec fn is_view_row(
    row: Seq<u8>,
    frame: FrameData,
    y: int,
    width: int,
    height: int,
) -> bool {
    &&& row.len() == width * 4
    &&& forall|j: int|
        0 <= j < row.len() ==> #[trigger] row[j] == frame_rgba(frame, j / 4, y, width, height)[j
            % 4]
}

/// Row `y` of a view of `view_width` by `view_height` that shows `frame`.
fn render_row(frame: &FrameData, y: usize, view_width: usize, view_height: usize) -> (row: Vec<u8>)
    requires
        view_width * 4 <= usize::MAX,
    ensures
        is_view_row(row@, *frame, y as int, view_width as int, view_height as int),
{
    let mut row: Vec<u8> = vec![0u8; view_width * 4];
    let mut x: usize = 0;
    while x < view_width
        invariant
            x <= view_width,
            view_width * 4 <= usize::MAX,
            row.len() == view_width * 4,
            forall|j: int|
                0 <= j < x * 4 ==> #[trigger] row[j] == frame_rgba(
                    *frame,
                    j / 4,
                    y as int,
                    view_width as int,
                    view_height as int,
                )[j % 4],
        decreases view_width - x,
    {
        let (r, g, b): (u8, u8, u8) = match frame.get_rgb_cropped_16_9(
            x,
            y,
            view_width,
            view_height,
        ) {
            Some(rgb) => rgb,
            None => (0, 0, 0),
        };
        let first: usize = x * 4;
        row[first] = r;
        row[first + 1] = g;
        row[first + 2] = b;
        row[first + 3] = 255;
        assert(seq![r, g, b, 255u8] == frame_rgba(
            *frame,
            x as int,
            y as int,
            view_width as int,
            view_height as int,
        ));
        assert forall|j: int| x * 4 <= j < x * 4 + 4 implies j / 4 == x && #[trigger] row[j]
            == seq![r, g, b, 255u8][j % 4] by {
            assert(j % 4 == j - first);
        }
        x = x + 1;
    }
    row
}

/// Writes `row` over the bytes of the buffer from `base` on.
fn copy_row(buffer: &mut Vec<u8>, base: usize, row: &Vec<u8>)
    requires
        base + row.len() <= old(buffer).len(),
    ensures
        final(buffer).len() == old(buffer).len(),
        forall|i: int|
            0 <= i < old(buffer).len() ==> #[trigger] final(buffer)[i] == if base <= i < base
                + row.len() {
                row[i - base]
            } else {
                old(buffer)[i]
            },
{
    let mut j: usize = 0;
    while j < row.len()
        invariant
            j <= row.len(),
            base + row.len() <= buffer.len(),
            buffer.len() == old(buffer).len(),
            forall|i: int|
                0 <= i < buffer.len() ==> #[trigger] buffer[i] == if base <= i < base + j {
                    row[i - base]
                } else {
                    old(buffer)[i]
                },
        decreases row.len() - j,
    {
        buffer[base + j] = row[j];
        j = j + 1;
    }
}

/// The bytes of `width` pixels of row `y`, from column `left` on, follow one another.
proof fn lemma_row_bytes(i: int, left: int, width: int, y: int, row_len: int)
    requires
        0 <= i,
        0 <= left,
        0 <= width,
        left + width <= row_len,
        0 < row_len,
        0 <= y,
    ensures
        (byte_y(i, row_len) == y && left <= byte_x(i, row_len) < left + width) == ((y * row_len
            + left) * 4 <= i < (y * row_len + left) * 4 + width * 4),
        (y * row_len + left) * 4 <= i < (y * row_len + left) * 4 + width * 4 ==> {
            &&& (i - (y * row_len + left) * 4) / 4 == byte_x(i, row_len) - left
            &&& (i - (y * row_len + left) * 4) % 4 == i % 4
        },
{
    let bx = byte_x(i, row_len);
    let by = byte_y(i, row_len);
    assert(0 <= bx < row_len && 0 <= by) by {
        reveal(byte_x);
        reveal(byte_y);
        vstd::arithmetic::div_mod::lemma_mod_bound(i / 4, row_len);
        vstd::arithmetic::div_mod::lemma_div_pos_is_pos(i / 4, row_len);
    }
    lemma_pixel_bytes(i, bx, by, row_len);
    if by < y {
        assert(by * row_len + row_len <= y * row_len) by (nonlinear_arith)
            requires
                by + 1 <= y,
                0 < row_len,
        ;
    }
    if by > y {
        assert(y * row_len + row_len <= by * row_len) by (nonlinear_arith)
            requires
                y + 1 <= by,
                0 < row_len,
        ;
    }
}

/// Renders one view: its rows are computed in parallel, then written one by one.
fn render_view_parallel(
    buffer: &mut Vec<u8>,
    output_width: usize,
    frame: &FrameData,
    offset_x: usize,
    offset_y: usize,
    view_width: usize,
    view_height: usize,
)
    requires
        offset_x + view_width <= output_width,
        (offset_y + view_height) * output_width * 4 <= old(buffer).len(),
        view_height > 0 ==> view_width * 4 <= usize::MAX,
        offset_y + view_height <= usize::MAX,
    ensures
        final(buffer).len() == old(buffer).len(),
        forall|i: int|
            0 <= i < old(buffer).len() ==> #[trigger] final(buffer)[i] == if in_rect(
                byte_x(i, output_width as int),
                byte_y(i, output_width as int),
                offset_x as int,
                offset_y as int,
                view_width as int,
                view_height as int,
            ) {
                frame_rgba(
                    *frame,
                    byte_x(i, output_width as int) - offset_x,
                    byte_y(i, output_width as int) - offset_y,
                    view_width as int,
                    view_height as int,
                )[i % 4]
            } else {
                old(buffer)[i]
            },
{
    let row_at = |y: usize| -> (row: Vec<u8>)
        requires
            view_width * 4 <= usize::MAX,
        ensures
            (is_view_row(row@, *frame, y as int, view_width as int, view_height as int)),
    {
        render_row(frame, y, view_width, view_height)
    };
    let rows: Vec<Vec<u8>> = par_map(view_height, row_at);
    let ghost ow = output_width as int;
    let mut y: usize = 0;
    while y < view_height
        invariant
            ow == output_width,
            y <= view_height,
            offset_x + view_width <= ow,
            (offset_y + view_height) * ow * 4 <= buffer.len(),
            offset_y + view_height <= usize::MAX,
            buffer.len() == old(buffer).len(),
            rows.len() == view_height,
            forall|k: int|
                0 <= k < view_height ==> is_view_row(
                    #[trigger] rows[k]@,
                    *frame,
                    k,
                    view_width as int,
                    view_height as int,
                ),
            forall|i: int|
                0 <= i < buffer.len() ==> #[trigger] buffer[i] == if in_rect(
                    byte_x(i, ow),
                    byte_y(i, ow),
                    offset_x as int,
                    offset_y as int,
                    view_width as int,
                    y as int,
                ) {
                    frame_rgba(
                        *frame,
                        byte_x(i, ow) - offset_x,
                        byte_y(i, ow) - offset_y,
                        view_width as int,
                        view_height as int,
                    )[i % 4]
                } else {
                    old(buffer)[i]
                },
        decreases view_height - y,
    {
        let dest_y: usize = offset_y + y;
        assert(0 <= dest_y * ow && dest_y * ow + ow <= (offset_y + view_height) * ow)
            by (nonlinear_arith)
            requires
                0 <= dest_y,
                dest_y + 1 <= offset_y + view_height,
                0 <= ow,
        ;
        let base: usize = (dest_y * output_width + offset_x) * 4;
        copy_row(buffer, base, &rows[y]);
        proof {
            assert forall|i: int| 0 <= i < buffer.len() implies #[trigger] buffer[i] == (if in_rect(
                byte_x(i, ow),
                byte_y(i, ow),
                offset_x as int,
                offset_y as int,
                view_width as int,
                y + 1,
            ) {
                frame_rgba(
                    *frame,
                    byte_x(i, ow) - offset_x,
                    byte_y(i, ow) - offset_y,
                    view_width as int,
                    view_height as int,
                )[i % 4]
            } else {
                old(buffer)[i]
            }) by {
                if ow > 0 {
                    lemma_row_bytes(i, offset_x as int, view_width as int, dest_y as int, ow);
                    if base <= i < base + view_width * 4 {
                        assert(rows[y as int]@[i - base] == frame_rgba(
                            *frame,
                            (i - base) / 4,
                            y as int,
                            view_width as int,
                            view_height as int,
                        )[(i - base) % 4]);
                    }
                }
            }
        }
        y = y + 1;
    }
}

/// Fills a region with opaque black, in stretches of rows of which there is about one
/// for each of `cpus` processors.
fn fill_black_chunks(
    buffer: &mut Vec<u8>,
    output_width: usize,
    offset_x: usize,
    offset_y: usize,
    width: usize,
    height: usize,
    cpus: usize,
)
    requires
        cpus > 0,
        offset_x + width <= output_width,
        offset_y + height <= usize::MAX,
    ensures
        final(buffer).len() == old(buffer).len(),
        forall|i: int|
            0 <= i < old(buffer).len() ==> #[trigger] final(buffer)[i] == if in_rect(
                byte_x(i, output_width as int),
                byte_y(i, output_width as int),
                offset_x as int,
                offset_y as int,
                width as int,
                height as int,
            ) && i - i % 4 + 3 < old(buffer).len() {
                black()[i % 4]
            } else {
                old(buffer)[i]
            },
{
    let ghost ow = output_width as int;
    let per_cpu: usize = height / cpus;
    let chunk_height: usize = if per_cpu < 1 {
        1
    } else {
        per_cpu
    };
    let mut y_start: usize = 0;
    while y_start < height
        invariant
            ow == output_width,
            chunk_height >= 1,
            y_start <= height,
            offset_x + width <= output_width,
            offset_y + height <= usize::MAX,
            buffer.len() == old(buffer).len(),
            forall|i: int|
                0 <= i < buffer.len() ==> #[trigger] buffer[i] == if in_rect(
                    byte_x(i, ow),
                    byte_y(i, ow),
                    offset_x as int,
                    offset_y as int,
                    width as int,
                    y_start as int,
                ) && i - i % 4 + 3 < buffer.len() {
                    black()[i % 4]
                } else {
                    old(buffer)[i]
                },
        decreases height - y_start,
    {
        let y_end: usize = if height - y_start < chunk_height {
            height
        } else {
            y_start + chunk_height
        };
        let mut y: usize = y_start;
        while y < y_end
            invariant
                ow == output_width,
                y <= y_end <= height,
                offset_x + width <= output_width,
                offset_y + height <= usize::MAX,
                buffer.len() == old(buffer).len(),
                forall|i: int|
                    0 <= i < buffer.len() ==> #[trigger] buffer[i] == if in_rect(
                        byte_x(i, ow),
                        byte_y(i, ow),
                        offset_x as int,
                        offset_y as int,
                        width as int,
                        y as int,
                    ) && i - i % 4 + 3 < buffer.len() {
                        black()[i % 4]
                    } else {
                        old(buffer)[i]
                    },
            decreases y_end - y,
        {
            let ghost before = buffer@;
            let mut x: usize = 0;
            while x < width
                invariant
                    ow == output_width,
                    x <= width,
                    y < height,
                    offset_x + width <= output_width,
                    offset_y + height <= usize::MAX,
                    buffer.len() == before.len(),
                    forall|i: int|
                        0 <= i < buffer.len() ==> #[trigger] buffer[i] == if byte_y(i, ow)
                            == offset_y + y && offset_x <= byte_x(i, ow) < offset_x + x && i - i % 4
                            + 3 < buffer.len() {
                            black()[i % 4]
                        } else {
                            before[i]
                        },
                decreases width - x,
            {
                let rgba: [u8; 4] = [0, 0, 0, 255];
                assert(rgba@ =~= black());
                set_pixel(
                    buffer,
                    output_width,
                    offset_y + height,
                    offset_x + x,
                    offset_y + y,
                    rgba,
                );
                x = x + 1;
            }
            y = y + 1;
        }
        y_start = y_end;
    }
}

/// Fills a region with opaque black, with the work cut up by the number of CPUs.
fn fill_black_parallel(
    buffer: &mut Vec<u8>,
    output_width: usize,
    offset_x: usize,
    offset_y: usize,
    width: usize,
    height: usize,
)
    requires
        offset_x + width <= output_width,
        offset_y + height <= usize::MAX,
    ensures
        final(buffer).len() == old(buffer).len(),
        forall|i: int|
            0 <= i < old(buffer).len() ==> #[trigger] final(buffer)[i] == if in_rect(
                byte_x(i, output_width as int),
                byte_y(i, output_width as int),
                offset_x as int,
                offset_y as int,
                width as int,
                height as int,
            ) && i - i % 4 + 3 < old(buffer).len() {
                black()[i % 4]
            } else {
                old(buffer)[i]
            },
{
    let cpus: usize = cpu_count();
    fill_black_chunks(buffer, output_width, offset_x, offset_y, width, height, cpus);
}

/// The view that shows the pixel `(x, y)` of a picture of `width` by `height`. All views
/// have the same size, the largest with which the grid fits; what is left over at the
/// right and at the bottom belongs to no view.
pub open spec fn view_index(layout: LayoutType, width: int, height: int, x: int, y: int) -> Option<
    int,
> {
    let cols = layout.cols() as int;
    let rows = layout.rows() as int;
    let view_width = width / cols;
    let view_height = height / rows;
    if view_width > 0 && view_height > 0 && x < cols * view_width && y < rows * view_height {
        Some((y / view_height) * cols + x / view_width)
    } else {
        None
    }
}

/// The colour of the border of a view, which stands out where the view is empty.
pub open spec fn border_rgba(has_frame: bool) -> Seq<u8> {
    if has_frame {
        seq![70u8, 70u8, 70u8, 255u8]
    } else {
        seq![180u8, 180u8, 180u8, 255u8]
    }
}

/// The pixel `(x, y)` of a view of `width` by `height`: a border of two pixels, and
/// inside it the frame, or black.
pub open spec fn view_rgba(
    frame: Option<FrameData>,
    x: int,
    y: int,
    width: int,
    height: int,
) -> Seq<u8> {
    if in_border(x, y, 0, 0, width, height, 2) {
        border_rgba(frame is Some)
    } else {
        match frame {
            Some(f) => frame_rgba(f, x, y, width, height),
            None => black(),
        }
    }
}

/// The pixel `(x, y)` of the composed picture.
pub open spec fn picture_rgba(
    layout: LayoutType,
    frames: Seq<Option<FrameData>>,
    width: int,
    height: int,
    x: int,
    y: int,
) -> Seq<u8> {
    let view_width = width / layout.cols() as int;
    let view_height = height / layout.rows() as int;
    match view_index(layout, width, height, x, y) {
        Some(k) => view_rgba(frames[k], x % view_width, y % view_height, view_width, view_height),
        None => seq![0u8, 0u8, 0u8, 0u8],
    }
}

/// The bytes of the composed picture, row by row, four to a pixel.
pub open spec fn picture(
    layout: LayoutType,
    frames: Seq<Option<FrameData>>,
    width: int,
    height: int,
) -> Seq<u8> {
    Seq::new(
        (width * height * 4) as nat,
        |i: int|
            picture_rgba(layout, frames, width, height, byte_x(i, width), byte_y(i, width))[i % 4],
    )
}

/// A multiple and a remainder are found again by division.
proof fn lemma_in_span(x: int, len: int, c: int)
    requires
        0 <= x,
        0 < len,
    ensures
        (c * len <= x < c * len + len) == (x / len == c),
        x / len == c ==> x % len == x - c * len,
{
    vstd::arithmetic::div_mod::lemma_fundamental_div_mod(x, len);
    vstd::arithmetic::div_mod::lemma_mod_bound(x, len);
    if c * len <= x < c * len + len {
        vstd::arithmetic::div_mod::lemma_fundamental_div_mod_converse(x, len, c, x - c * len);
    }
    if x / len == c {
        assert(len * c == c * len) by (nonlinear_arith);
    }
}

/// The pixels of view `k` are those of the rectangle in column `k % cols` and row
/// `k / cols` of the grid.
pub proof fn lemma_view_rect(
    layout: LayoutType,
    width: int,
    height: int,
    k: int,
    x: int,
    y: int,
)
    requires
        0 <= width,
        0 <= height,
        0 <= x,
        0 <= y,
        0 <= k < layout.views(),
    ensures
        ({
            let cols = layout.cols() as int;
            let vw = width / cols;
            let vh = height / layout.rows() as int;
            &&& (view_index(layout, width, height, x, y) == Some(k)) == in_rect(
                x,
                y,
                (k % cols) * vw,
                (k / cols) * vh,
                vw,
                vh,
            )
            &&& view_index(layout, width, height, x, y) == Some(k) ==> x % vw == x - (k % cols) * vw
                && y % vh == y - (k / cols) * vh
        }),
{
    let cols = layout.cols() as int;
    let rows = layout.rows() as int;
    let vw = width / cols;
    let vh = height / rows;
    if vw > 0 && vh > 0 {
        lemma_in_span(x, vw, k % cols);
        lemma_in_span(y, vh, k / cols);
        let q = x / vw;
        lemma_in_span(x, vw, q);
        lemma_in_span(y, vh, y / vh);
        assert((x < cols * vw) == (q < cols)) by (nonlinear_arith)
            requires
                q * vw <= x < q * vw + vw,
                0 < vw,
        ;
        let p = y / vh;
        assert((y < rows * vh) == (p < rows)) by (nonlinear_arith)
            requires
                p * vh <= y < p * vh + vh,
                0 < vh,
        ;
        assert(0 <= q && 0 <= p) by {
            vstd::arithmetic::div_mod::lemma_div_pos_is_pos(x, vw);
            vstd::arithmetic::div_mod::lemma_div_pos_is_pos(y, vh);
        }
        if layout is Single {
            assert(k % cols == 0 && k / cols == 0);
        } else {
            assert(k % cols == k % 4 && k / cols == k / 4);
            assert(q < 4 ==> (p * 4 + q == k) == (p == k / 4 && q == k % 4));
        }
    }
}

/// The bytes of the pixels of a picture come before its end.
proof fn lemma_pixel_in_picture(i: int, width: int, height: int)
    requires
        0 <= i,
        0 < width,
        byte_y(i, width) < height,
    ensures
        i - i % 4 + 3 < width * height * 4,
        0 <= byte_x(i, width) < width,
        0 <= byte_y(i, width),
{
    let x = byte_x(i, width);
    let y = byte_y(i, width);
    assert(0 <= x < width && 0 <= y) by {
        reveal(byte_x);
        reveal(byte_y);
        vstd::arithmetic::div_mod::lemma_mod_bound(i / 4, width);
        vstd::arithmetic::div_mod::lemma_div_pos_is_pos(i / 4, width);
    }
    lemma_pixel_bytes(i, x, y, width);
    assert(y * width + width <= width * height) by (nonlinear_arith)
        requires
            y + 1 <= height,
            0 < width,
    ;
}

/// Paints one view: its frame, or black, and over it the border.
fn paint_view(
    buffer: &mut Vec<u8>,
    output_width: usize,
    output_height: usize,
    offset_x: usize,
    offset_y: usize,
    view_width: usize,
    view_height: usize,
    frame: &Option<FrameData>,
)
    requires
        offset_x + view_width <= output_width,
        offset_y + view_height <= output_height,
        output_width * output_height * 4 <= old(buffer).len(),
    ensures
        final(buffer).len() == old(buffer).len(),
        forall|i: int|
            0 <= i < old(buffer).len() ==> #[trigger] final(buffer)[i] == if in_rect(
                byte_x(i, output_width as int),
                byte_y(i, output_width as int),
                offset_x as int,
                offset_y as int,
                view_width as int,
                view_height as int,
            ) {
                view_rgba(
                    *frame,
                    byte_x(i, output_width as int) - offset_x,
                    byte_y(i, output_width as int) - offset_y,
                    view_width as int,
                    view_height as int,
                )[i % 4]
            } else {
                old(buffer)[i]
            },
{
    let ghost ow = output_width as int;
    let ghost oh = output_height as int;
    proof {
        assert((offset_y + view_height) * ow * 4 <= ow * oh * 4) by (nonlinear_arith)
            requires
                offset_y + view_height <= oh,
                0 <= ow,
        ;
        if view_height > 0 {
            assert(view_width * 4 <= ow * oh * 4) by (nonlinear_arith)
                requires
                    0 <= view_width <= ow,
                    1 <= oh,
            ;
        }
    }
    let border: [u8; 4] = match frame {
        Some(f) => {
            render_view_parallel(
                buffer,
                output_width,
                f,
                offset_x,
                offset_y,
                view_width,
                view_height,
            );
            [70, 70, 70, 255]
        },
        None => {
            fill_black_parallel(buffer, output_width, offset_x, offset_y, view_width, view_height);
            [180, 180, 180, 255]
        },
    };
    assert(border@ =~= border_rgba(*frame is Some));
    draw_view_border(
        buffer,
        output_width,
        output_height,
        offset_x,
        offset_y,
        view_width,
        view_height,
        border,
        2,
    );
    proof {
        assert forall|i: int| 0 <= i < buffer.len() implies #[trigger] buffer[i] == (if in_rect(
            byte_x(i, ow),
            byte_y(i, ow),
            offset_x as int,
            offset_y as int,
            view_width as int,
            view_height as int,
        ) {
            view_rgba(
                *frame,
                byte_x(i, ow) - offset_x,
                byte_y(i, ow) - offset_y,
                view_width as int,
                view_height as int,
            )[i % 4]
        } else {
            old(buffer)[i]
        }) by {
            if in_rect(
                byte_x(i, ow),
                byte_y(i, ow),
                offset_x as int,
                offset_y as int,
                view_width as int,
                view_height as int,
            ) {
                lemma_pixel_in_picture(i, ow, oh);
            }
        }
    }
}

/// A pixel belongs to no view but those of the layout.
pub proof fn lemma_view_index_bounds(layout: LayoutType, width: int, height: int, x: int, y: int)
    requires
        0 <= width,
        0 <= height,
        0 <= x,
        0 <= y,
    ensures
        view_index(layout, width, height, x, y) matches Some(k) ==> 0 <= k
            < layout.views(),
{
    let cols = layout.cols() as int;
    let rows = layout.rows() as int;
    let vw = width / cols;
    let vh = height / rows;
    if view_index(layout, width, height, x, y) is Some {
        let q = x / vw;
        let p = y / vh;
        lemma_in_span(x, vw, q);
        lemma_in_span(y, vh, p);
        vstd::arithmetic::div_mod::lemma_div_pos_is_pos(x, vw);
        vstd::arithmetic::div_mod::lemma_div_pos_is_pos(y, vh);
        assert(q < cols) by (nonlinear_arith)
            requires
                q * vw <= x < cols * vw,
                0 < vw,
        ;
        assert(p < rows) by (nonlinear_arith)
            requires
                p * vh <= y < rows * vh,
                0 < vh,
        ;
        assert(0 <= p * cols + q < cols * rows) by (nonlinear_arith)
            requires
                0 <= q < cols,
                0 <= p,
                p + 1 <= rows,
        ;
        crate::layout::law_grid_holds_all_views(layout);
    }
}

/// Every view lies inside the picture.
pub proof fn lemma_view_fits(layout: LayoutType, width: int, height: int, k: int)
    requires
        0 <= width,
        0 <= height,
        0 <= k < layout.views(),
    ensures
        ({
            let cols = layout.cols() as int;
            let vw = width / cols;
            let vh = height / layout.rows() as int;
            &&& 0 <= (k % cols) * vw
            &&& (k % cols) * vw + vw <= width
            &&& 0 <= (k / cols) * vh
            &&& (k / cols) * vh + vh <= height
        }),
{
    let cols = layout.cols() as int;
    let rows = layout.rows() as int;
    let vw = width / cols;
    let vh = height / rows;
    let col = k % cols;
    let row = k / cols;
    if layout is Single {
        assert(col == 0 && row == 0 && cols * vw <= width && rows * vh <= height);
    } else {
        assert(col == k % 4 && row == k / 4 && vw == width / 4 && vh == height / 2);
        assert(cols * vw <= width && rows * vh <= height);
    }
    assert(0 <= col * vw && col * vw + vw <= cols * vw) by (nonlinear_arith)
        requires
            0 <= col < cols,
            0 <= vw,
    ;
    assert(0 <= row * vh && row * vh + vh <= rows * vh) by (nonlinear_arith)
        requires
            0 <= row < rows,
            0 <= vh,
    ;
}

/// What became of a frame that was handed to the cache.
#[derive(Debug, Clone, Copy, PartialEq, Eq, Structural)]
pub enum CacheOutcome {
    /// The frame is shown from now on.
    Cached,
    /// The layout has no such view.
    NoSuchView,
    /// The frame has no pixels.
    InvalidResolution { width: u32, height: u32 },
    /// The frame has fewer bytes than its resolution asks for.
    Incomplete { expected: u128, got: usize },
}

/// The buffer after its front has been overwritten; it has grown where it was too short.
pub open spec fn overwritten(buffer: Seq<u8>, front: Seq<u8>) -> Seq<u8> {
    Seq::new(
        if front.len() > buffer.len() {
            front.len()
        } else {
            buffer.len()
        },
        |i: int|
            if i < front.len() {
                front[i]
            } else {
                buffer[i]
            },
    )
}

/// Composes the frames of several views into one picture.
pub struct MultiViewRenderer {
    layout_type: LayoutType,
    frame_cache: Vec<Option<FrameData>>,
    output_buffer: Vec<u8>,
}

impl MultiViewRenderer {
    /// The layout of the picture.
    pub closed spec fn layout(&self) -> LayoutType {
        self.layout_type
    }

    /// The frame that each view shows.
    pub closed spec fn frames(&self) -> Seq<Option<FrameData>> {
        self.frame_cache@
    }

    /// The buffer that pictures are composed in.
    pub closed spec fn buffer(&self) -> Seq<u8> {
        self.output_buffer@
    }

    /// There is one place for a frame for each view, and each cached frame is complete.
    pub open spec fn wf(&self) -> bool {
        &&& self.frames().len() == self.layout().views()
        &&& forall|k: int|
            0 <= k < self.frames().len() ==> (#[trigger] self.frames()[k] matches Some(f)
                ==> f.complete())
    }

    /// Makes a renderer with no frames, and a buffer for a picture of 1920 by 1080.
    pub fn new(layout_type: LayoutType) -> (r: Self)
        ensures
            r.wf(),
            r.layout() == layout_type,
            r.frames() == Seq::new(
                layout_type.views(),
                |k: int| None::<FrameData>,
            ),
            r.buffer() == Seq::new(1920 * 1080 * 4, |i: int| 0u8),
    {
        let view_count: usize = layout_type.view_count();
        let mut frame_cache: Vec<Option<FrameData>> = Vec::new();
        for k in 0..view_count
            invariant
                frame_cache.len() == k,
                forall|j: int| 0 <= j < k ==> #[trigger] frame_cache[j] is None,
        {
            frame_cache.push(None);
        }
        let output_buffer: Vec<u8> = vec![0u8; 1920 * 1080 * 4];
        let r = MultiViewRenderer { layout_type, frame_cache, output_buffer };
        assert(r.frames() =~= Seq::new(view_count as nat, |k: int| None::<FrameData>));
        assert(r.buffer() =~= Seq::new(1920 * 1080 * 4, |i: int| 0u8));
        r
    }

    /// Caches a frame for a view, if there is such a view and the frame is complete; the
    /// outcome says why it was not cached.
    pub fn cache_frame(&mut self, view_index: usize, frame: FrameData) -> (outcome: CacheOutcome)
        requires
            old(self).wf(),
        ensures
            final(self).wf(),
            final(self).layout() == old(self).layout(),
            final(self).buffer() == old(self).buffer(),
            final(self).frames() == if view_index < old(self).frames().len() && frame.complete() {
                old(self).frames().update(view_index as int, Some(frame))
            } else {
                old(self).frames()
            },
            outcome == if view_index >= old(self).frames().len() {
                CacheOutcome::NoSuchView
            } else if frame.width == 0 || frame.height == 0 {
                CacheOutcome::InvalidResolution { width: frame.width, height: frame.height }
            } else if !frame.complete() {
                CacheOutcome::Incomplete {
                    expected: (frame.width * frame.height * 3) as u128,
                    got: frame.pixels.len(),
                }
            } else {
                CacheOutcome::Cached
            },
            outcome is Cached <==> view_index < old(self).frames().len() && frame.width > 0
                && frame.height > 0 && 3 * (frame.width * frame.height) <= frame.pixels@.len(),
            outcome is Cached ==> final(self).frames()[view_index as int] == Some(frame),
            forall|k: int|
                0 <= k < old(self).frames().len() && (k != view_index || outcome !is Cached)
                    ==> #[trigger] final(self).frames()[k] == old(self).frames()[k],
    {
        if view_index >= self.frame_cache.len() {
            return CacheOutcome::NoSuchView;
        }
        if frame.width == 0 || frame.height == 0 {
            return CacheOutcome::InvalidResolution { width: frame.width, height: frame.height };
        }
        assert(0 <= frame.width * frame.height <= u32::MAX * u32::MAX) by (nonlinear_arith)
            requires
                0 <= frame.width <= u32::MAX,
                0 <= frame.height <= u32::MAX,
        ;
        let expected: u128 = frame.width as u128 * frame.height as u128 * 3;
        if (frame.pixels.len() as u128) < expected {
            return CacheOutcome::Incomplete { expected, got: frame.pixels.len() };
        }
        self.frame_cache[view_index] = Some(frame);
        CacheOutcome::Cached
    }

    /// Empties a view, if there is such a view.
    pub fn clear_frame(&mut self, view_index: usize)
        requires
            old(self).wf(),
        ensures
            final(self).wf(),
            final(self).layout() == old(self).layout(),
            final(self).buffer() == old(self).buffer(),
            final(self).frames() == if view_index < old(self).frames().len() {
                old(self).frames().update(view_index as int, None)
            } else {
                old(self).frames()
            },
    {
        if view_index < self.frame_cache.len() {
            self.frame_cache[view_index] = None;
        }
    }

    /// Whether the buffer has to grow for a picture of this size, and if so, the number of
    /// bytes that the picture needs and the number that the buffer has.
    pub fn resize_needed(&self, output_width: usize, output_height: usize) -> (need: Option<
        (usize, usize),
    >)
        requires
            output_width * output_height * 4 <= isize::MAX,
        ensures
            need == if output_width * output_height * 4 > self.buffer().len() {
                Some(
                    (
                        (output_width * output_height * 4) as usize,
                        self.buffer().len() as usize,
                    ),
                )
            } else {
                None
            },
    {
        assert(0 <= output_width * output_height) by (nonlinear_arith);
        let required_size: usize = output_width * output_height * 4;
        if required_size > self.output_buffer.len() {
            Some((required_size, self.output_buffer.len()))
        } else {
            None
        }
    }

    /// Composes the frames into a picture of `output_width` by `output_height` and
    /// returns its bytes. The buffer grows where the picture does not fit.
    pub fn render(&mut self, output_width: usize, output_height: usize) -> (out: &[u8])
        requires
            old(self).wf(),
            output_width * output_height * 4 <= isize::MAX,
        ensures
            out@ == picture(
                old(self).layout(),
                old(self).frames(),
                output_width as int,
                output_height as int,
            ),
            final(self).wf(),
            final(self).layout() == old(self).layout(),
            final(self).frames() == old(self).frames(),
            final(self).buffer() == overwritten(old(self).buffer(), out@),
    {
        let ghost ow = output_width as int;
        let ghost oh = output_height as int;
        let ghost layout = self.layout_type;
        let ghost frames = self.frame_cache@;
        let ghost old_buffer = self.output_buffer@;
        assert(0 <= ow * oh) by (nonlinear_arith)
            requires
                0 <= ow,
                0 <= oh,
        ;
        let required_size: usize = output_width * output_height * 4;
        if required_size > self.output_buffer.len() {
            self.output_buffer.resize(required_size, 0);
        }
        let (cols, rows) = self.layout_type.dimensions();
        let view_width: usize = output_width / cols;
        let view_height: usize = output_height / rows;
        let ghost vw = view_width as int;
        let ghost vh = view_height as int;
        par_clear(&mut self.output_buffer, required_size);
        let ghost len = self.output_buffer.len() as int;
        assert forall|i: int| required_size <= i < len implies self.output_buffer@[i]
            == old_buffer[i] by {}
        assert forall|i: int| 0 <= i < required_size implies 0 <= byte_x(i, ow) && 0 <= byte_y(i, ow)
            && (#[trigger] view_index(layout, ow, oh, byte_x(i, ow), byte_y(i, ow)) matches Some(k)
            ==> 0 <= k < layout.views()) by {
            lemma_byte_bounds(i, ow, oh);
            lemma_view_index_bounds(layout, ow, oh, byte_x(i, ow), byte_y(i, ow));
        }
        let view_count: usize = self.frame_cache.len();
        let mut view_idx: usize = 0;
        while view_idx < view_count
            invariant
                ow == output_width,
                oh == output_height,
                required_size == ow * oh * 4,
                required_size <= len <= usize::MAX,
                cols == layout.cols(),
                rows == layout.rows(),
                view_width == ow / (cols as int),
                view_height == oh / (rows as int),
                vw == view_width,
                vh == view_height,
                view_idx <= view_count,
                view_count == layout.views(),
                view_count == frames.len(),
                self.layout_type == layout,
                self.frame_cache@ == frames,
                self.output_buffer.len() == len,
                len == if required_size > old_buffer.len() { required_size as int } else { old_buffer.len() as int },
                forall|i: int|
                    required_size <= i < len ==> self.output_buffer@[i] == old_buffer[i],
                forall|i: int|
                    0 <= i < required_size ==> #[trigger] self.output_buffer@[i] == if view_index(
                        layout,
                        ow,
                        oh,
                        byte_x(i, ow),
                        byte_y(i, ow),
                    ) matches Some(k) && k >= view_idx {
                        0
                    } else {
                        picture_rgba(layout, frames, ow, oh, byte_x(i, ow), byte_y(i, ow))[i % 4]
                    },
            decreases view_count - view_idx,
        {
            let row: usize = view_idx / cols;
            let col: usize = view_idx % cols;
            assert(0 <= col * vw && col * vw + vw <= ow && 0 <= row * vh && row * vh + vh <= oh) by {
                lemma_view_fits(layout, ow, oh, view_idx as int);
            }
            let offset_x: usize = col * view_width;
            let offset_y: usize = row * view_height;
            paint_view(
                &mut self.output_buffer,
                output_width,
                output_height,
                offset_x,
                offset_y,
                view_width,
                view_height,
                &self.frame_cache[view_idx],
            );
            proof {
                assert forall|i: int| required_size <= i < len implies self.output_buffer@[i]
                    == old_buffer[i] by {
                    if ow > 0 && byte_y(i, ow) < oh {
                        lemma_pixel_in_picture(i, ow, oh);
                    }
                }
                assert forall|i: int| 0 <= i < required_size implies #[trigger] self.output_buffer@[i]
                    == (if view_index(
                    layout,
                    ow,
                    oh,
                    byte_x(i, ow),
                    byte_y(i, ow),
                ) matches Some(k) && k >= view_idx + 1 {
                    0
                } else {
                    picture_rgba(layout, frames, ow, oh, byte_x(i, ow), byte_y(i, ow))[i % 4]
                }) by {
                    lemma_byte_bounds(i, ow, oh);
                    lemma_view_rect(
                        layout,
                        ow,
                        oh,
                        view_idx as int,
                        byte_x(i, ow),
                        byte_y(i, ow),
                    );
                    assert(self.output_buffer[i] == self.output_buffer@[i]);
                }
            }
            view_idx = view_idx + 1;
        }
        assert(self.output_buffer@.subrange(0, required_size as int) =~= picture(
            layout,
            frames,
            ow,
            oh,
        ));
        assert(self.output_buffer@ =~= overwritten(old_buffer, picture(layout, frames, ow, oh)));
        &self.output_buffer[0..required_size]
    }
}

/// The crop lies inside the picture, and its sides are as 16 to 9 up to rounding down
/// one of them.
pub proof fn law_crop_is_16_9(width: int, height: int)
    requires
        0 <= width,
        0 <= height,
    ensures
        ({
            let (w, h) = crop_size(width, height);
            &&& 0 <= w <= width
            &&& 0 <= h <= height
            &&& w == width || h == height
            &&& h == w * 9 / 16 || w == h * 16 / 9
        }),
{
}

/// Positions of a view are mapped into the crop, the first on the first and the last on
/// the last, and never backwards.
pub proof fn law_sampling_is_linear(a: int, b: int, out_len: int, crop_len: int)
    requires
        0 <= a <= b < out_len,
        0 < crop_len <= u32::MAX,
    ensures
        0 <= sample_position(a, out_len, crop_len) <= sample_position(b, out_len, crop_len)
            < crop_len,
        sample_position(0, out_len, crop_len) == 0,
        out_len > 1 ==> sample_position(out_len - 1, out_len, crop_len) == crop_len - 1,
{
    if out_len > 1 {
        let c = crop_len - 1;
        let n = out_len - 1;
        lemma_quotient_bounds(a, b, n, c);
        lemma_quotient_bounds(0, n, n, c);
        assert(0 * c == 0) by (nonlinear_arith);
        vstd::arithmetic::div_mod::lemma_div_multiples_vanish(c, n);
        assert(n * c / n == c);
    }
}

/// A product divided by the bound of one of its factors stays within the other.
proof fn lemma_quotient_bounds(a: int, b: int, n: int, c: int)
    requires
        0 <= a <= b <= n,
        0 < n,
        0 <= c,
    ensures
        0 <= a * c / n <= b * c / n <= c,
{
    assert(0 <= a * c <= b * c <= c * n) by (nonlinear_arith)
        requires
            0 <= a <= b <= n,
            0 <= c,
    ;
    vstd::arithmetic::div_mod::lemma_div_pos_is_pos(a * c, n);
    vstd::arithmetic::div_mod::lemma_div_is_ordered(a * c, b * c, n);
    vstd::arithmetic::div_mod::lemma_div_is_ordered(b * c, c * n, n);
    vstd::arithmetic::div_mod::lemma_div_multiples_vanish(c, n);
    assert(n * c == c * n) by (nonlinear_arith);
}

/// A view that shows a complete frame whose crop is not empty shows a pixel of the
/// frame, from within the crop, at every place.
pub proof fn law_complete_frame_fills_view(frame: FrameData, x: int, y: int, width: int, height: int)
    requires
        frame.complete(),
        0 <= x < width,
        0 <= y < height,
        crop_size(frame.width as int, frame.height as int).0 > 0,
        crop_size(frame.width as int, frame.height as int).1 > 0,
    ensures
        ({
            let (cw, ch) = crop_size(frame.width as int, frame.height as int);
            let left = (frame.width - cw) / 2;
            let top = (frame.height - ch) / 2;
            let sx = left + sample_position(x, width, cw);
            let sy = top + sample_position(y, height, ch);
            &&& in_rect(sx, sy, left, top, cw, ch)
            &&& frame.rgb_at(sx, sy) is Some
            &&& frame.cropped_rgb_at(x, y, width, height) == frame.rgb_at(sx, sy)
        }),
{
    let (cw, ch) = crop_size(frame.width as int, frame.height as int);
    law_crop_is_16_9(frame.width as int, frame.height as int);
    law_sampling_is_linear(x, x, width, cw);
    law_sampling_is_linear(y, y, height, ch);
    let sx = (frame.width - cw) / 2 + sample_position(x, width, cw);
    let sy = (frame.height - ch) / 2 + sample_position(y, height, ch);
    assert(0 <= sx < frame.width && 0 <= sy < frame.height);
    assert(sy * frame.width + frame.width <= frame.width * frame.height) by (nonlinear_arith)
        requires
            sy + 1 <= frame.height,
            0 <= frame.width,
    ;
}

/// The index of a byte gives its pixel and its channel back.
proof fn lemma_pixel_index(x: int, y: int, width: int, height: int, channel: int)
    requires
        0 <= x < width,
        0 <= y < height,
        0 <= channel < 4,
    ensures
        ({
            let i = (y * width + x) * 4 + channel;
            &&& 0 <= i < width * height * 4
            &&& i % 4 == channel
            &&& byte_x(i, width) == x
            &&& byte_y(i, width) == y
        }),
{
    let i = (y * width + x) * 4 + channel;
    lemma_pixel_bytes(0, x, y, width);
    lemma_pixel_bytes(i, x, y, width);
    lemma_pixel_in_picture(i, width, height);
    assert(i % 4 == channel);
}

/// The four bytes of the pixel `(x, y)` of a picture stand at `(y * width + x) * 4`.
#[verifier::spinoff_prover]
pub proof fn law_picture_pixel(
    layout: LayoutType,
    frames: Seq<Option<FrameData>>,
    width: int,
    height: int,
    x: int,
    y: int,
    channel: int,
)
    requires
        0 <= x < width,
        0 <= y < height,
        0 <= channel < 4,
    ensures
        0 <= (y * width + x) * 4 + channel < picture(layout, frames, width, height).len(),
        picture(layout, frames, width, height)[(y * width + x) * 4 + channel] == picture_rgba(
            layout,
            frames,
            width,
            height,
            x,
            y,
        )[channel],
{
    lemma_pixel_index(x, y, width, height, channel);
}

/// A view shows its own frame and no other: two pictures agree on every pixel of view
/// `k` as soon as they agree on the frame of view `k`.
pub proof fn law_views_are_independent(
    layout: LayoutType,
    a: Seq<Option<FrameData>>,
    b: Seq<Option<FrameData>>,
    width: int,
    height: int,
    x: int,
    y: int,
)
    requires
        view_index(layout, width, height, x, y) matches Some(k) ==> a[k] == b[k],
    ensures
        picture_rgba(layout, a, width, height, x, y) == picture_rgba(
            layout,
            b,
            width,
            height,
            x,
            y,
        ),
{
}

/// The views are opaque everywhere, and the pixels that belong to no view are
/// transparent.
pub proof fn law_views_are_opaque(
    layout: LayoutType,
    frames: Seq<Option<FrameData>>,
    width: int,
    height: int,
    x: int,
    y: int,
)
    ensures
        picture_rgba(layout, frames, width, height, x, y).len() == 4,
        picture_rgba(layout, frames, width, height, x, y)[3] == if view_index(
            layout,
            width,
            height,
            x,
            y,
        ) is Some {
            255u8
        } else {
            0u8
        },
{
}

/// Emptying a view undoes caching a frame for it, where the view was empty before.
pub proof fn law_clear_undoes_cache(frames: Seq<Option<FrameData>>, k: int, frame: FrameData)
    requires
        0 <= k < frames.len(),
        frames[k] is None,
    ensures
        frames.update(k, Some(frame)).update(k, None) == frames,
{
    assert(frames.update(k, Some(frame)).update(k, None) =~= frames);
}

/// Nothing of an earlier picture shows in a later one, and composing a picture again
/// changes nothing.
pub proof fn law_pictures_replace_each_other(buffer: Seq<u8>, earlier: Seq<u8>, later: Seq<u8>)
    ensures
        overwritten(overwritten(buffer, earlier), later).subrange(0, later.len() as int) == later,
        overwritten(overwritten(buffer, later), later) == overwritten(buffer, later),
{
    assert(overwritten(overwritten(buffer, earlier), later).subrange(0, later.len() as int)
        =~= later);
    assert(overwritten(overwritten(buffer, later), later) =~= overwritten(buffer, later));
}

/// Where the grid fits into the picture without rest, every pixel belongs to a view.
pub proof fn law_views_tile_the_picture(
    layout: LayoutType,
    width: int,
    height: int,
    x: int,
    y: int,
)
    requires
        0 <= x < width,
        0 <= y < height,
        width % layout.cols() as int == 0,
        height % layout.rows() as int == 0,
    ensures
        view_index(layout, width, height, x, y) is Some,
{
    let cols = layout.cols() as int;
    let rows = layout.rows() as int;
    vstd::arithmetic::div_mod::lemma_fundamental_div_mod(width, cols);
    vstd::arithmetic::div_mod::lemma_fundamental_div_mod(height, rows);
    assert(width / cols > 0) by (nonlinear_arith)
        requires
            cols > 0,
            width > 0,
            width == cols * (width / cols),
    ;
    assert(height / rows > 0) by (nonlinear_arith)
        requires
            rows > 0,
            height > 0,
            height == rows * (height / rows),
    ;
}

/// Whether `crop_w` by `crop_h` is the part of a picture that is shown: its full width and
/// nine sixteenths of it, rounded down, where that is not too high, and otherwise its full
/// height and sixteen ninths of it, rounded down.
pub open spec fn is_crop(width: int, height: int, crop_w: int, crop_h: int) -> bool {
    if 9 * width < 16 * (height + 1) {
        crop_w == width && 16 * crop_h <= 9 * width < 16 * crop_h + 16
    } else {
        crop_h == height && 9 * crop_w <= 16 * height < 9 * crop_w + 9
    }
}

/// There is just one such part, and it is the one that is shown.
proof fn lemma_crop(width: int, height: int, crop_w: int, crop_h: int)
    requires
        0 <= width,
        0 <= height,
        is_crop(width, height, crop_w, crop_h),
    ensures
        crop_size(width, height) == (crop_w, crop_h),
        0 <= crop_w <= width,
        0 <= crop_h <= height,
{
}

/// The pixel in column `x` of row `y` has the three bytes from `(y * width + x) * 3` on, and
/// there is such a pixel exactly where it lies in the frame and the frame has its bytes.
pub proof fn law_pixels_stand_row_by_row(frame: FrameData, x: int, y: int)
    ensures
        ({
            let p = (y * frame.width + x) * 3;
            let there = 0 <= x < frame.width && 0 <= y < frame.height && p + 2
                < frame.pixels@.len();
            &&& frame.rgb_at(x, y) is Some <==> there
            &&& there ==> frame.rgb_at(x, y) == Some(
                (frame.pixels@[p], frame.pixels@[p + 1], frame.pixels@[p + 2]),
            )
        }),
{
}

/// A frame is complete exactly where it has pixels and three bytes for each of them, which
/// is where it has its last pixel.
pub proof fn law_complete_frames(frame: FrameData)
    ensures
        frame.complete() <==> frame.width > 0 && frame.height > 0 && frame.pixels@.len() >= 3 * (
        frame.width * frame.height),
        frame.complete() <==> frame.rgb_at(frame.width - 1, frame.height - 1) is Some,
{
    let w = frame.width as int;
    let h = frame.height as int;
    assert(((h - 1) * w + (w - 1)) * 3 + 2 == w * h * 3 - 1) by (nonlinear_arith);
}

/// The place of the crop at which a view of `out_w` by `out_h` is sampled: position `x` of
/// the view is to its last position as the sampled column is to the last column of the crop,
/// rounded down and kept in 32 bits, and the same holds of the rows. Nothing is shown of an
/// empty crop, or in an empty view.
#[verifier::spinoff_prover]
pub proof fn law_crop_is_sampled_linearly(
    frame: FrameData,
    crop_w: int,
    crop_h: int,
    x: int,
    y: int,
    out_w: int,
    out_h: int,
)
    requires
        is_crop(frame.width as int, frame.height as int, crop_w, crop_h),
        0 <= x,
        0 <= y,
        0 <= out_w,
        0 <= out_h,
    ensures
        crop_w == 0 || crop_h == 0 || out_w == 0 || out_h == 0 ==> frame.cropped_rgb_at(
            x,
            y,
            out_w,
            out_h,
        ) is None,
        crop_w > 0 && crop_h > 0 && out_w > 0 && out_h > 0 ==> {
            let column = if out_w == 1 {
                0
            } else {
                (x * (crop_w - 1) / (out_w - 1)) % 0x1_0000_0000
            };
            let row = if out_h == 1 {
                0
            } else {
                (y * (crop_h - 1) / (out_h - 1)) % 0x1_0000_0000
            };
            let sx = (frame.width - crop_w) / 2 + column;
            let sy = (frame.height - crop_h) / 2 + row;
            let p = (sy * frame.width + sx) * 3;
            let rgb = frame.cropped_rgb_at(x, y, out_w, out_h);
            if sx < frame.width && sy < frame.height && p + 2 < frame.pixels@.len() {
                rgb == Some((frame.pixels@[p], frame.pixels@[p + 1], frame.pixels@[p + 2]))
            } else {
                rgb is None
            }
        },
{
    lemma_crop(frame.width as int, frame.height as int, crop_w, crop_h);
}

/// Where a pixel of a view stands in the picture, and what the picture holds there.
#[verifier::spinoff_prover]
proof fn lemma_view_pixel(
    layout: LayoutType,
    frames: Seq<Option<FrameData>>,
    width: int,
    height: int,
    view_w: int,
    view_h: int,
    col: int,
    row: int,
    k: int,
    x: int,
    y: int,
    at: int,
)
    requires
        0 <= width,
        0 <= height,
        view_w == width / layout.cols() as int,
        view_h == height / layout.rows() as int,
        0 <= col < layout.cols(),
        0 <= row < layout.rows(),
        k == row * layout.cols() + col,
        0 <= x < view_w,
        0 <= y < view_h,
        at == ((row * view_h + y) * width + (col * view_w + x)) * 4,
    ensures
        0 <= at,
        at + 3 < picture(layout, frames, width, height).len(),
        forall|c: int|
            0 <= c < 4 ==> picture(layout, frames, width, height)[#[trigger] (at + c)] == view_rgba(
                frames[k],
                x,
                y,
                view_w,
                view_h,
            )[c],
{
    let cols = layout.cols() as int;
    let px = col * view_w + x;
    let py = row * view_h + y;
    assert(0 <= k < layout.views() && k % cols == col && k / cols == row) by {
        if layout is Single {
            assert(row * cols == 0) by (nonlinear_arith)
                requires
                    row == 0,
            ;
        } else {
            assert(row * cols == row * 4) by (nonlinear_arith)
                requires
                    cols == 4,
            ;
        }
    }
    lemma_view_fits(layout, width, height, k);
    lemma_view_rect(layout, width, height, k, px, py);
    law_picture_pixel(layout, frames, width, height, px, py, 0);
    law_picture_pixel(layout, frames, width, height, px, py, 3);
    assert forall|c: int| 0 <= c < 4 implies picture(layout, frames, width, height)[
        #[trigger] (at + c)
    ] == view_rgba(frames[k], x, y, view_w, view_h)[c] by {
        law_picture_pixel(layout, frames, width, height, px, py, c);
    }
}

/// A place of the grid is in one of its cells, at a place of that cell.
pub proof fn lemma_grid_place(p: int, len: int, cells: int)
    requires
        0 <= p < cells * len,
        0 <= len,
    ensures
        0 < len,
        0 <= p / len < cells,
        0 <= p % len < len,
        (p / len) * len + p % len == p,
{
    assert(0 < len) by (nonlinear_arith)
        requires
            0 <= p < cells * len,
            0 <= len,
    ;
    vstd::arithmetic::div_mod::lemma_fundamental_div_mod(p, len);
    vstd::arithmetic::div_mod::lemma_mod_bound(p, len);
    vstd::arithmetic::div_mod::lemma_div_pos_is_pos(p, len);
    let q = p / len;
    assert(len * q == q * len) by (nonlinear_arith);
    assert(q < cells) by (nonlinear_arith)
        requires
            q * len <= p < cells * len,
            0 < len,
    ;
}

/// A picture has four bytes for each pixel.
pub proof fn law_picture_len(
    layout: LayoutType,
    frames: Seq<Option<FrameData>>,
    width: int,
    height: int,
)
    requires
        0 <= width,
        0 <= height,
    ensures
        picture(layout, frames, width, height).len() == 4 * (width * height),
{
    assert(0 <= width * height) by (nonlinear_arith)
        requires
            0 <= width,
            0 <= height,
    ;
}

/// A position of a view falls on a position of the crop, which fits into 32 bits.
proof fn lemma_position(out: int, out_len: int, crop_len: int)
    requires
        0 <= out < out_len,
        1 < out_len,
        0 < crop_len <= u32::MAX,
    ensures
        sample_position(out, out_len, crop_len) == out * (crop_len - 1) / (out_len - 1),
        0 <= sample_position(out, out_len, crop_len) < crop_len,
{
    lemma_quotient_bounds(out, out, out_len - 1, crop_len - 1);
    let q = out * (crop_len - 1) / (out_len - 1);
    vstd::arithmetic::div_mod::lemma_small_mod(q as nat, 0x1_0000_0000);
}

/// A place of a view of a complete frame shows the pixel that is sampled for it.
#[verifier::spinoff_prover]
proof fn lemma_sampled_pixel(
    f: FrameData,
    crop_w: int,
    crop_h: int,
    x: int,
    y: int,
    view_w: int,
    view_h: int,
    sx: int,
    sy: int,
    from: int,
)
    requires
        3 * (f.width * f.height) <= f.pixels@.len(),
        is_crop(f.width as int, f.height as int, crop_w, crop_h),
        0 < crop_w,
        0 < crop_h,
        0 <= x < view_w,
        0 <= y < view_h,
        1 < view_w,
        1 < view_h,
        sx == (f.width - crop_w) / 2 + x * (crop_w - 1) / (view_w - 1),
        sy == (f.height - crop_h) / 2 + y * (crop_h - 1) / (view_h - 1),
        from == (sy * f.width + sx) * 3,
    ensures
        0 <= from,
        from + 2 < f.pixels@.len(),
        f.cropped_rgb_at(x, y, view_w, view_h) == Some(
            (f.pixels@[from], f.pixels@[from + 1], f.pixels@[from + 2]),
        ),
{
    lemma_crop(f.width as int, f.height as int, crop_w, crop_h);
    lemma_position(x, view_w, crop_w);
    lemma_position(y, view_h, crop_h);
    let column = sample_position(x, view_w, crop_w);
    let line = sample_position(y, view_h, crop_h);
    assert(sx == (f.width - crop_w) / 2 + column && sy == (f.height - crop_h) / 2 + line);
    assert(f.cropped_rgb_at(x, y, view_w, view_h) == f.rgb_at(sx, sy));
    assert(0 <= sx < f.width && 0 <= sy < f.height) by {
        assert(0 <= column < crop_w <= f.width && 0 <= line < crop_h <= f.height);
    }
    assert(0 <= sy * f.width && sy * f.width + f.width <= f.width * f.height) by (nonlinear_arith)
        requires
            0 <= sy,
            sy + 1 <= f.height,
            0 <= f.width,
    ;
}

/// The view in column `col` and row `row` of the grid shows the crop of its frame, stretched
/// over the whole view: the pixel at `(x, y)` of the view, inside its border, holds the bytes
/// of the pixel of the frame at the same part of the width and of the height of the crop, and
/// is opaque. The grid is one view, or two rows of four, of the same size each, from the upper
/// left of the picture on.
#[verifier::spinoff_prover]
pub proof fn law_view_shows_its_frame(
    layout: LayoutType,
    frames: Seq<Option<FrameData>>,
    width: int,
    height: int,
    col: int,
    row: int,
    x: int,
    y: int,
    crop_w: int,
    crop_h: int,
)
    requires
        0 <= width,
        0 <= height,
        0 <= col < if layout is Single { 1int } else { 4int },
        0 <= row < if layout is Single { 1int } else { 2int },
        2 <= x < (width / if layout is Single { 1int } else { 4int }) - 2,
        2 <= y < (height / if layout is Single { 1int } else { 2int }) - 2,
        frames[row * (if layout is Single { 1int } else { 4int }) + col] is Some,
        ({
            let f = frames[row * (if layout is Single { 1int } else { 4int }) + col]->0;
            &&& 3 * (f.width * f.height) <= f.pixels@.len()
            &&& is_crop(f.width as int, f.height as int, crop_w, crop_h)
        }),
        0 < crop_w,
        0 < crop_h,
    ensures
        ({
            let cols = if layout is Single { 1int } else { 4int };
            let view_w = width / cols;
            let view_h = height / if layout is Single { 1int } else { 2int };
            let f = frames[row * cols + col]->0;
            let sx = (f.width - crop_w) / 2 + x * (crop_w - 1) / (view_w - 1);
            let sy = (f.height - crop_h) / 2 + y * (crop_h - 1) / (view_h - 1);
            let from = (sy * f.width + sx) * 3;
            let at = ((row * view_h + y) * width + (col * view_w + x)) * 4;
            let out = picture(layout, frames, width, height);
            &&& 0 <= at && at + 3 < out.len()
            &&& 0 <= from && from + 2 < f.pixels@.len()
            &&& out[at] == f.pixels@[from]
            &&& out[at + 1] == f.pixels@[from + 1]
            &&& out[at + 2] == f.pixels@[from + 2]
            &&& out[at + 3] == 255
        }),
{
    let cols = if layout is Single { 1int } else { 4int };
    let rows = if layout is Single { 1int } else { 2int };
    let vw = width / cols;
    let vh = height / rows;
    assert(layout.cols() == cols && layout.rows() == rows);
    let k = row * cols + col;
    let f = frames[k]->0;
    let at = ((row * vh + y) * width + (col * vw + x)) * 4;
    let sx = (f.width - crop_w) / 2 + x * (crop_w - 1) / (vw - 1);
    let sy = (f.height - crop_h) / 2 + y * (crop_h - 1) / (vh - 1);
    let from = (sy * f.width + sx) * 3;
    lemma_sampled_pixel(f, crop_w, crop_h, x, y, vw, vh, sx, sy, from);
    lemma_view_pixel(layout, frames, width, height, vw, vh, col, row, k, x, y, at);
    let rgba = seq![f.pixels@[from], f.pixels@[from + 1], f.pixels@[from + 2], 255u8];
    assert(view_rgba(frames[k], x, y, vw, vh) == rgba);
    let out = picture(layout, frames, width, height);
    assert(out[at + 0] == rgba[0]);
    assert(out[at + 1] == rgba[1]);
    assert(out[at + 2] == rgba[2]);
    assert(out[at + 3] == rgba[3]);
}

/// A view has an opaque border of two pixels, dark grey where it has a frame and light grey
/// where it is empty. Inside the border an empty view is opaque black, and so is one whose
/// frame has an empty crop.
#[verifier::spinoff_prover]
pub proof fn law_view_without_picture(
    layout: LayoutType,
    frames: Seq<Option<FrameData>>,
    width: int,
    height: int,
    col: int,
    row: int,
    x: int,
    y: int,
)
    requires
        0 <= width,
        0 <= height,
        0 <= col < if layout is Single { 1int } else { 4int },
        0 <= row < if layout is Single { 1int } else { 2int },
        0 <= x < width / if layout is Single { 1int } else { 4int },
        0 <= y < height / if layout is Single { 1int } else { 2int },
    ensures
        ({
            let cols = if layout is Single { 1int } else { 4int };
            let view_w = width / cols;
            let view_h = height / if layout is Single { 1int } else { 2int };
            let frame = frames[row * cols + col];
            let at = ((row * view_h + y) * width + (col * view_w + x)) * 4;
            let out = picture(layout, frames, width, height);
            let border = x < 2 || x >= view_w - 2 || y < 2 || y >= view_h - 2;
            let grey: u8 = if frame is Some { 70 } else { 180 };
            let no_crop = frame is Some && (is_crop(
                frame->0.width as int,
                frame->0.height as int,
                0,
                frame->0.height as int,
            ) || is_crop(frame->0.width as int, frame->0.height as int, frame->0.width as int, 0));
            &&& 0 <= at && at + 3 < out.len()
            &&& out[at + 3] == 255
            &&& border ==> out[at] == grey && out[at + 1] == grey && out[at + 2] == grey
            &&& !border && (frame is None || no_crop) ==> out[at] == 0 && out[at + 1] == 0 && out[at
                + 2] == 0
        }),
{
    let cols = if layout is Single { 1int } else { 4int };
    let rows = if layout is Single { 1int } else { 2int };
    assert(layout.cols() == cols && layout.rows() == rows);
    let vw = width / cols;
    let vh = height / rows;
    let k = row * cols + col;
    let at = ((row * vh + y) * width + (col * vw + x)) * 4;
    lemma_view_pixel(layout, frames, width, height, vw, vh, col, row, k, x, y, at);
    let rgba = view_rgba(frames[k], x, y, vw, vh);
    let out = picture(layout, frames, width, height);
    assert(out[at + 0] == rgba[0]);
    assert(out[at + 1] == rgba[1]);
    assert(out[at + 2] == rgba[2]);
    assert(out[at + 3] == rgba[3]);
}

/// The pixels to the right of the grid and below it are transparent black.
#[verifier::spinoff_prover]
pub proof fn law_rest_is_transparent(
    layout: LayoutType,
    frames: Seq<Option<FrameData>>,
    width: int,
    height: int,
    x: int,
    y: int,
)
    requires
        0 <= x < width,
        0 <= y < height,
        ({
            let cols = if layout is Single { 1int } else { 4int };
            let rows = if layout is Single { 1int } else { 2int };
            x >= cols * (width / cols) || y >= rows * (height / rows)
        }),
    ensures
        ({
            let at = (y * width + x) * 4;
            let out = picture(layout, frames, width, height);
            &&& 0 <= at && at + 3 < out.len()
            &&& out[at] == 0 && out[at + 1] == 0 && out[at + 2] == 0 && out[at + 3] == 0
        }),
{
    let cols = if layout is Single { 1int } else { 4int };
    let rows = if layout is Single { 1int } else { 2int };
    assert(layout.cols() == cols && layout.rows() == rows);
    assert(view_index(layout, width, height, x, y) is None);
    law_picture_pixel(layout, frames, width, height, x, y, 0);
    law_picture_pixel(layout, frames, width, height, x, y, 1);
    law_picture_pixel(layout, frames, width, height, x, y, 2);
    law_picture_pixel(layout, frames, width, height, x, y, 3);
}

/// Composing a picture keeps what the buffer holds behind it, and never shortens the buffer.
pub proof fn law_buffer_behind_the_picture_is_kept(buffer: Seq<u8>, front: Seq<u8>, i: int)
    ensures
        overwritten(buffer, front).len() >= buffer.len(),
        overwritten(buffer, front).len() == buffer.len() || overwritten(buffer, front).len()
            == front.len(),
        0 <= i < front.len() ==> overwritten(buffer, front)[i] == front[i],
        front.len() <= i < buffer.len() ==> overwritten(buffer, front)[i] == buffer[i],
{
}

} // verus!
