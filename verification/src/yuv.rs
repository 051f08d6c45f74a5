//! The planes of a frame for the encoder.
//!
//! The encoder takes a frame as three planes: the brightness of every pixel, and two
//! colour differences of the upper left of every two by two pixels. The planes are filled
//! row by row, in parallel. How a pixel is turned into a byte of a plane is up to the
//! caller.

use rayon::iter::{IndexedParallelIterator, ParallelIterator};
use rayon::slice::ParallelSliceMut;
use vstd::prelude::*;

verus! {

/// The pixel at `(x, y)` of a frame of which every row has `width` pixels, as far as the
/// frame has its bytes.
pub open spec fn pixel_at(pixels: Seq<u8>, width: int, x: int, y: int) -> Option<(u8, u8, u8)> {
    let first = (y * width + x) * 3;
    if first + 2 < pixels.len() {
        Some((pixels[first], pixels[first + 1], pixels[first + 2]))
    } else {
        None
    }
}

/// Whether `after` is what `convert` makes of the pixel at `(x, y)`, or the byte as it was
/// `before` where the frame has no such pixel.
pub open spec fn sampled<F: Fn(u8, u8, u8) -> u8>(
    convert: F,
    pixels: Seq<u8>,
    width: int,
    x: int,
    y: int,
    before: u8,
    after: u8,
) -> bool {
    match pixel_at(pixels, width, x, y) {
        Some((r, g, b)) => call_ensures(convert, (r, g, b), after),
        None => after == before,
    }
}

/// Whether row `y` of a plane holds every `step`-th pixel of every `step`-th row.
pub open spec fn row_sampled<F: Fn(u8, u8, u8) -> u8>(
    convert: F,
    pixels: Seq<u8>,
    width: int,
    step: int,
    y: int,
    before: Seq<u8>,
    after: Seq<u8>,
) -> bool {
    &&& after.len() == before.len()
    &&& forall|x: int|
        0 <= x < after.len() ==> sampled(
            convert,
            pixels,
            width,
            x * step,
            y * step,
            before[x],
            #[trigger] after[x],
        )
}

/// Fills row `y` of a plane with every `step`-th pixel of a row.
fn sample_row<F: Fn(u8, u8, u8) -> u8>(
    row: &mut [u8],
    y: usize,
    step: usize,
    pixels: &[u8],
    width: u32,
    convert: &F,
)
    requires
        y <= u32::MAX,
        step <= 2,
        old(row)@.len() <= u32::MAX,
        forall|r: u8, g: u8, b: u8| call_requires(*convert, (r, g, b)),
    ensures
        row_sampled(
            *convert,
            pixels@,
            width as int,
            step as int,
            y as int,
            old(row)@,
            final(row)@,
        ),
{
    let n: usize = row.len();
    let mut x: usize = 0;
    while x < n
        invariant
            x <= n,
            n == row@.len(),
            n == old(row)@.len(),
            n <= u32::MAX,
            y <= u32::MAX,
            step <= 2,
            forall|r: u8, g: u8, b: u8| call_requires(*convert, (r, g, b)),
            forall|j: int| x <= j < n ==> row@[j] == old(row)@[j],
            forall|j: int|
                0 <= j < x ==> sampled(
                    *convert,
                    pixels@,
                    width as int,
                    j * step,
                    y * step,
                    old(row)@[j],
                    #[trigger] row@[j],
                ),
        decreases n - x,
    {
        assert(0 <= y * step <= 0x1_ffff_fffe) by (nonlinear_arith)
            requires
                0 <= y <= u32::MAX,
                0 <= step <= 2,
        ;
        assert(0 <= x * step <= 0x1_ffff_fffe) by (nonlinear_arith)
            requires
                0 <= x <= u32::MAX,
                0 <= step <= 2,
        ;
        let ys: u128 = y as u128 * step as u128;
        let xs: u128 = x as u128 * step as u128;
        assert(0 <= ys * width <= 0x1_ffff_fffe * 0xffff_ffff) by (nonlinear_arith)
            requires
                0 <= ys <= 0x1_ffff_fffe,
                0 <= width <= 0xffff_ffff,
        ;
        let index: u128 = ys * width as u128 + xs;
        if index < (pixels.len() / 3) as u128 {
            let first: usize = index as usize * 3;
            let byte: u8 = convert(pixels[first], pixels[first + 1], pixels[first + 2]);
            row[x] = byte;
        }
        x = x + 1;
    }
}

/// Fills a plane of rows of `row_len` with rayon's `par_chunks_mut`, `enumerate` and
/// `for_each`: [`sample_row`] is called once on each stretch of `row_len` bytes, with the
/// number of the stretch.
#[verifier::external_body]
fn par_sample<F: Fn(u8, u8, u8) -> u8 + Sync>(
    plane: &mut Vec<u8>,
    row_len: usize,
    step: usize,
    pixels: &[u8],
    width: u32,
    convert: &F,
)
    requires
        0 < row_len <= u32::MAX,
        step <= 2,
        old(plane)@.len() <= row_len * u32::MAX,
        old(plane)@.len() % row_len as nat == 0,
        forall|r: u8, g: u8, b: u8| call_requires(*convert, (r, g, b)),
    ensures
        final(plane)@.len() == old(plane)@.len(),
        forall|y: int|
            0 <= y && y * row_len + row_len <= old(plane)@.len() ==> row_sampled(
                *convert,
                pixels@,
                width as int,
                step as int,
                y,
                #[trigger] old(plane)@.subrange(y * row_len, y * row_len + row_len),
                final(plane)@.subrange(y * row_len, y * row_len + row_len),
            ),
{
    plane.par_chunks_mut(row_len).enumerate().for_each(
        |(y, row)| sample_row(row, y, step, pixels, width, convert),
    );
}

/// Whether `plane` has `rows` rows of `row_len` bytes that hold every `step`-th pixel of
/// every `step`-th row, and zero where the frame has no such pixel.
pub open spec fn is_plane<F: Fn(u8, u8, u8) -> u8>(
    plane: Seq<u8>,
    convert: F,
    pixels: Seq<u8>,
    width: int,
    row_len: int,
    rows: int,
    step: int,
) -> bool {
    &&& plane.len() == row_len * rows
    &&& forall|i: int|
        0 <= i < plane.len() ==> sampled(
            convert,
            pixels,
            width,
            (i % row_len) * step,
            (i / row_len) * step,
            0,
            #[trigger] plane[i],
        )
}

/// Makes a plane of a frame.
fn make_plane<F: Fn(u8, u8, u8) -> u8 + Sync>(
    pixels: &[u8],
    width: u32,
    row_len: u32,
    rows: u32,
    step: usize,
    convert: &F,
) -> (plane: Vec<u8>)
    requires
        row_len > 0,
        step <= 2,
        row_len * rows <= isize::MAX,
        forall|r: u8, g: u8, b: u8| call_requires(*convert, (r, g, b)),
    ensures
        is_plane(
            plane@,
            *convert,
            pixels@,
            width as int,
            row_len as int,
            rows as int,
            step as int,
        ),
{
    let ghost rl = row_len as int;
    assert(0 <= rl * rows <= rl * u32::MAX) by (nonlinear_arith)
        requires
            0 <= rl,
            0 <= rows <= u32::MAX,
    ;
    let len: usize = row_len as usize * rows as usize;
    let mut plane: Vec<u8> = vec![0u8; len];
    proof {
        vstd::arithmetic::div_mod::lemma_mod_multiples_basic(rows as int, rl);
        assert(rows * rl == rl * rows) by (nonlinear_arith);
    }
    let ghost empty = plane@;
    par_sample(&mut plane, row_len as usize, step, pixels, width, convert);
    proof {
        assert forall|i: int| 0 <= i < plane@.len() implies sampled(
            *convert,
            pixels@,
            width as int,
            (i % rl) * step,
            (i / rl) * step,
            0,
            #[trigger] plane@[i],
        ) by {
            let y = i / rl;
            let x = i % rl;
            vstd::arithmetic::div_mod::lemma_fundamental_div_mod(i, rl);
            vstd::arithmetic::div_mod::lemma_mod_bound(i, rl);
            vstd::arithmetic::div_mod::lemma_div_pos_is_pos(i, rl);
            assert(y * rl == rl * y) by (nonlinear_arith);
            assert(y < rows) by (nonlinear_arith)
                requires
                    y * rl <= i < rl * rows,
                    0 < rl,
            ;
            assert(y * rl + rl <= rl * rows) by (nonlinear_arith)
                requires
                    y + 1 <= rows,
                    0 < rl,
            ;
            assert(0 <= y * rl) by (nonlinear_arith)
                requires
                    0 <= y,
                    0 < rl,
            ;
            let before = empty.subrange(y * rl, y * rl + rl);
            let after = plane@.subrange(y * rl, y * rl + rl);
            assert(row_sampled(
                *convert,
                pixels@,
                width as int,
                step as int,
                y,
                before,
                after,
            ));
            assert(after[x] == plane@[i] && before[x] == 0);
        }
    }
    plane
}

/// The number of bytes of the brightness plane.
pub open spec fn luma_len(width: u32, height: u32) -> int {
    width * height
}

/// The number of bytes of each of the two colour planes.
pub open spec fn chroma_len(width: u32, height: u32) -> int {
    (width / 2) * (height / 2)
}

/// Whether `yuv` holds the three planes of a picture of `target_width` by
/// `target_height`, one after another, taken from a frame whose rows have `width` pixels.
pub open spec fn is_yuv<
    Y: Fn(u8, u8, u8) -> u8,
    U: Fn(u8, u8, u8) -> u8,
    V: Fn(u8, u8, u8) -> u8,
>(
    yuv: Seq<u8>,
    pixels: Seq<u8>,
    width: u32,
    target_width: u32,
    target_height: u32,
    luma: Y,
    blue: U,
    red: V,
) -> bool {
    let y_len = luma_len(target_width, target_height);
    let uv_len = chroma_len(target_width, target_height);
    let cols = (target_width / 2) as int;
    let rows = (target_height / 2) as int;
    &&& yuv.len() == y_len + uv_len * 2
    &&& is_plane(
        yuv.subrange(0, y_len),
        luma,
        pixels,
        width as int,
        target_width as int,
        target_height as int,
        1,
    )
    &&& is_plane(
        yuv.subrange(y_len, y_len + uv_len),
        blue,
        pixels,
        width as int,
        cols,
        rows,
        2,
    )
    &&& is_plane(
        yuv.subrange(y_len + uv_len, y_len + uv_len * 2),
        red,
        pixels,
        width as int,
        cols,
        rows,
        2,
    )
}

/// Makes the planes of a frame for a picture of `target_width` by `target_height`. The
/// pixels of the frame are counted by its own width, so that the rows of a narrower frame
/// run on into the next; what lies behind its end is zero.
pub fn to_yuv<
    Y: Fn(u8, u8, u8) -> u8 + Sync,
    U: Fn(u8, u8, u8) -> u8 + Sync,
    V: Fn(u8, u8, u8) -> u8 + Sync,
>(
    pixels: &[u8],
    width: u32,
    target_width: u32,
    target_height: u32,
    luma: &Y,
    blue: &U,
    red: &V,
) -> (yuv: Vec<u8>)
    requires
        target_width >= 2,
        luma_len(target_width, target_height) + chroma_len(target_width, target_height) * 2
            <= isize::MAX,
        forall|r: u8, g: u8, b: u8| call_requires(*luma, (r, g, b)),
        forall|r: u8, g: u8, b: u8| call_requires(*blue, (r, g, b)),
        forall|r: u8, g: u8, b: u8| call_requires(*red, (r, g, b)),
    ensures
        is_yuv(
            yuv@,
            pixels@,
            width,
            target_width,
            target_height,
            *luma,
            *blue,
            *red,
        ),
{
    assert(0 <= chroma_len(target_width, target_height)) by (nonlinear_arith)
        requires
            0 <= target_width / 2,
            0 <= target_height / 2,
    ;
    let mut yuv: Vec<u8> = make_plane(pixels, width, target_width, target_height, 1, luma);
    let mut u_plane: Vec<u8> = make_plane(
        pixels,
        width,
        target_width / 2,
        target_height / 2,
        2,
        blue,
    );
    let mut v_plane: Vec<u8> = make_plane(
        pixels,
        width,
        target_width / 2,
        target_height / 2,
        2,
        red,
    );
    let ghost y = yuv@;
    let ghost u = u_plane@;
    let ghost v = v_plane@;
    yuv.append(&mut u_plane);
    yuv.append(&mut v_plane);
    proof {
        let y_len = luma_len(target_width, target_height);
        let uv_len = chroma_len(target_width, target_height);
        assert(yuv@.subrange(0, y_len) =~= y);
        assert(yuv@.subrange(y_len, y_len + uv_len) =~= u);
        assert(yuv@.subrange(y_len + uv_len, y_len + uv_len * 2) =~= v);
    }
    yuv
}

/// The planes of a picture with even sides take three bytes to two pixels.
pub proof fn law_yuv_len(width: u32, height: u32)
    requires
        width % 2 == 0,
        height % 2 == 0,
    ensures
        luma_len(width, height) + chroma_len(width, height) * 2 == 3 * (width * height) / 2,
{
    let w = (width / 2) as int;
    let h = (height / 2) as int;
    assert(width * height == 4 * (w * h)) by (nonlinear_arith)
        requires
            width == 2 * w,
            height == 2 * h,
    ;
}

/// A complete frame has every pixel that the planes of a picture of its size are made of.
pub proof fn law_complete_frame_fills_planes(
    pixels: Seq<u8>,
    width: int,
    height: int,
    x: int,
    y: int,
)
    requires
        0 <= x < width,
        0 <= y < height,
        width * height * 3 <= pixels.len(),
    ensures
        pixel_at(pixels, width, x, y) is Some,
{
    assert(y * width + width <= width * height) by (nonlinear_arith)
        requires
            y + 1 <= height,
            0 < width,
    ;
}

/// The byte of a plane at `(x, y)` is sampled at `(x * step, y * step)`.
proof fn lemma_plane_byte<F: Fn(u8, u8, u8) -> u8>(
    plane: Seq<u8>,
    convert: F,
    pixels: Seq<u8>,
    width: int,
    row_len: int,
    rows: int,
    step: int,
    x: int,
    y: int,
)
    requires
        is_plane(plane, convert, pixels, width, row_len, rows, step),
        0 <= x < row_len,
        0 <= y < rows,
    ensures
        0 <= y * row_len + x < row_len * rows,
        sampled(convert, pixels, width, x * step, y * step, 0, plane[y * row_len + x]),
{
    let i = y * row_len + x;
    assert(0 <= i < row_len * rows) by (nonlinear_arith)
        requires
            i == y * row_len + x,
            0 <= x < row_len,
            0 <= y,
            y + 1 <= rows,
    ;
    vstd::arithmetic::div_mod::lemma_fundamental_div_mod_converse(i, row_len, y, x);
    assert(plane[i] == plane[i]);
}

/// Every byte of the planes is what the caller makes of one pixel of the frame. The byte at
/// `(x, y)` of the brightness plane comes from the pixel at `(x, y)`, and those of the two
/// colour planes, which follow it, from the pixel at `(2 * x, 2 * y)`. The pixels of the
/// frame are counted row by row, by its own width; a byte whose pixel lies behind the end of
/// the frame is zero.
pub proof fn law_planes_hold_the_pixels<
    Y: Fn(u8, u8, u8) -> u8,
    U: Fn(u8, u8, u8) -> u8,
    V: Fn(u8, u8, u8) -> u8,
>(
    yuv: Seq<u8>,
    pixels: Seq<u8>,
    width: u32,
    target_width: u32,
    target_height: u32,
    luma: Y,
    blue: U,
    red: V,
    x: int,
    y: int,
)
    requires
        is_yuv(yuv, pixels, width, target_width, target_height, luma, blue, red),
    ensures
        yuv.len() == target_width * target_height + 2 * ((target_width / 2) * (target_height / 2)),
        0 <= x < target_width && 0 <= y < target_height ==> {
            let p = (y * width + x) * 3;
            let byte = yuv[y * target_width + x];
            if p + 2 < pixels.len() {
                call_ensures(luma, (pixels[p], pixels[p + 1], pixels[p + 2]), byte)
            } else {
                byte == 0
            }
        },
        0 <= x < target_width / 2 && 0 <= y < target_height / 2 ==> {
            let p = (2 * y * width + 2 * x) * 3;
            let first = target_width * target_height + y * (target_width / 2) + x;
            let u = yuv[first];
            let v = yuv[first + (target_width / 2) * (target_height / 2)];
            if p + 2 < pixels.len() {
                &&& call_ensures(blue, (pixels[p], pixels[p + 1], pixels[p + 2]), u)
                &&& call_ensures(red, (pixels[p], pixels[p + 1], pixels[p + 2]), v)
            } else {
                u == 0 && v == 0
            }
        },
{
    let w = target_width as int;
    let h = target_height as int;
    let y_len = w * h;
    let cols = (target_width / 2) as int;
    let rows = (target_height / 2) as int;
    let uv_len = cols * rows;
    assert(0 <= y_len && 0 <= uv_len) by (nonlinear_arith)
        requires
            y_len == w * h,
            uv_len == cols * rows,
            0 <= w,
            0 <= h,
            0 <= cols,
            0 <= rows,
    ;
    if 0 <= x < w && 0 <= y < h {
        lemma_plane_byte(yuv.subrange(0, y_len), luma, pixels, width as int, w, h, 1, x, y);
        assert(yuv.subrange(0, y_len)[y * w + x] == yuv[y * w + x]);
        assert(x * 1 == x && y * 1 == y);
    }
    if 0 <= x < cols && 0 <= y < rows {
        let i = y * cols + x;
        let u_plane = yuv.subrange(y_len, y_len + uv_len);
        let v_plane = yuv.subrange(y_len + uv_len, y_len + uv_len * 2);
        lemma_plane_byte(u_plane, blue, pixels, width as int, cols, rows, 2, x, y);
        lemma_plane_byte(v_plane, red, pixels, width as int, cols, rows, 2, x, y);
        assert(u_plane[i] == yuv[y_len + i]);
        assert(v_plane[i] == yuv[y_len + uv_len + i]);
        assert(y * 2 == 2 * y && x * 2 == 2 * x);
    }
}

/// A complete frame is recorded whole at its own size: each byte of the planes is what the
/// caller makes of the pixel at its place, and none is filled up.
pub proof fn law_complete_frame_is_recorded_whole<
    Y: Fn(u8, u8, u8) -> u8,
    U: Fn(u8, u8, u8) -> u8,
    V: Fn(u8, u8, u8) -> u8,
>(
    yuv: Seq<u8>,
    pixels: Seq<u8>,
    width: u32,
    height: u32,
    luma: Y,
    blue: U,
    red: V,
    x: int,
    y: int,
)
    requires
        is_yuv(yuv, pixels, width, width, height, luma, blue, red),
        width * height * 3 <= pixels.len(),
    ensures
        0 <= x < width && 0 <= y < height ==> {
            let n = y * width + x;
            call_ensures(luma, (pixels[n * 3], pixels[n * 3 + 1], pixels[n * 3 + 2]), yuv[n])
        },
        0 <= x < width / 2 && 0 <= y < height / 2 ==> {
            let n = 2 * y * width + 2 * x;
            let first = width * height + y * (width / 2) + x;
            let rgb = (pixels[n * 3], pixels[n * 3 + 1], pixels[n * 3 + 2]);
            &&& call_ensures(blue, rgb, yuv[first])
            &&& call_ensures(red, rgb, yuv[first + (width / 2) * (height / 2)])
        },
{
    law_planes_hold_the_pixels(yuv, pixels, width, width, height, luma, blue, red, x, y);
    let w = width as int;
    let h = height as int;
    if 0 <= x < w && 0 <= y < h {
        assert(y * w + w <= w * h) by (nonlinear_arith)
            requires
                y + 1 <= h,
                0 < w,
        ;
    }
    if 0 <= x < width / 2 && 0 <= y < height / 2 {
        assert(2 * y * w + w <= w * h) by (nonlinear_arith)
            requires
                2 * y + 1 <= h,
                0 < w,
        ;
    }
}

} // verus!
