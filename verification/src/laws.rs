//! What calls give, stated of the calls themselves.
//!
//! Each law takes the arguments and the result of one call, or of two calls one after the
//! other, and says in plain terms what holds of them.

use crate::camera::{CameraId, CameraInfo, CameraManager};
use crate::capture::{
    accept_decoded, accept_image, newest_delivery, CameraIndex, CaptureAction, CaptureEvent,
    CaptureLoop, DeviceInfo, FrameReply, RgbImage,
};
use crate::layout::{LayoutConfig, LayoutType, ViewDescriptor};
use crate::recorder::{
    encode_outcome, recording_file_name, EncodeOutcome, EncoderAction, EncoderEvent, EncoderLoop,
    FrameEncoder, RecorderManager, RecordingStart, RecordingTarget, WriterAction, WriterEvent,
    WriterLoop,
};
use crate::renderer::{CacheOutcome, MultiViewRenderer};
use crate::source::{CameraSource, SourceId, SourceInfo, SourceManager, VideoSource};
use crate::targets::RecordConfigs;
use crate::text::decimal_text;
use crate::yuv::to_yuv;
use std::sync::Arc;
use vstd::prelude::*;

verus! {

/// A pixel of a frame is the three bytes at its place, row by row, where the frame has it.
pub proof fn law_get_rgb(
    frame: crate::renderer::FrameData,
    x: u32,
    y: u32,
    rgb: Option<(u8, u8, u8)>,
)
    requires
        call_ensures(crate::renderer::FrameData::get_rgb, (&frame, x, y), rgb),
    ensures
        ({
            let p = (y * frame.width + x) * 3;
            if x < frame.width && y < frame.height && p + 2 < frame.pixels@.len() {
                rgb == Some((frame.pixels@[p], frame.pixels@[p + 1], frame.pixels@[p + 2]))
            } else {
                rgb is None
            }
        }),
{
}

/// A place of a view shows the pixel of the frame at the same part of the width and the
/// height of the crop, which lies in the middle of the frame.
pub proof fn law_get_rgb_cropped(
    frame: crate::renderer::FrameData,
    out_x: usize,
    out_y: usize,
    out_w: usize,
    out_h: usize,
    crop_w: int,
    crop_h: int,
    rgb: Option<(u8, u8, u8)>,
)
    requires
        call_ensures(
            crate::renderer::FrameData::get_rgb_cropped_16_9,
            (&frame, out_x, out_y, out_w, out_h),
            rgb,
        ),
        crate::renderer::is_crop(frame.width as int, frame.height as int, crop_w, crop_h),
    ensures
        crop_w == 0 || crop_h == 0 || out_w == 0 || out_h == 0 ==> rgb is None,
        crop_w > 0 && crop_h > 0 && out_w > 0 && out_h > 0 ==> {
            let column = if out_w == 1 {
                0
            } else {
                (out_x * (crop_w - 1) / (out_w - 1)) % 0x1_0000_0000
            };
            let row = if out_h == 1 {
                0
            } else {
                (out_y * (crop_h - 1) / (out_h - 1)) % 0x1_0000_0000
            };
            let sx = (frame.width - crop_w) / 2 + column;
            let sy = (frame.height - crop_h) / 2 + row;
            let p = (sy * frame.width + sx) * 3;
            if sx < frame.width && sy < frame.height && p + 2 < frame.pixels@.len() {
                rgb == Some((frame.pixels@[p], frame.pixels@[p + 1], frame.pixels@[p + 2]))
            } else {
                rgb is None
            }
        },
{
    crate::renderer::law_crop_is_sampled_linearly(
        frame,
        crop_w,
        crop_h,
        out_x as int,
        out_y as int,
        out_w as int,
        out_h as int,
    );
}

/// A frame that was cached for a view is shown by the next picture: every pixel of the view
/// inside its border holds the pixel of the frame at the same part of the crop, and is
/// opaque.
pub proof fn law_cached_frame_is_shown(
    caching: &mut MultiViewRenderer,
    rendering: &mut MultiViewRenderer,
    frame: crate::renderer::FrameData,
    outcome: CacheOutcome,
    width: usize,
    height: usize,
    out: &[u8],
    k: usize,
    col: int,
    row: int,
    x: int,
    y: int,
    crop_w: int,
    crop_h: int,
)
    requires
        call_ensures(MultiViewRenderer::cache_frame, (caching, k, frame), outcome),
        *final(caching) == *old(rendering),
        call_ensures(MultiViewRenderer::render, (rendering, width, height), out),
        3 * (frame.width * frame.height) <= frame.pixels@.len(),
        crate::renderer::is_crop(frame.width as int, frame.height as int, crop_w, crop_h),
        0 < crop_w,
        0 < crop_h,
        old(caching).frames().len() == if old(caching).layout() is Single { 1int } else { 8int },
        0 <= col < if old(caching).layout() is Single { 1int } else { 4int },
        0 <= row < if old(caching).layout() is Single { 1int } else { 2int },
        k == row * (if old(caching).layout() is Single { 1int } else { 4int }) + col,
        2 <= x < (width as int / if old(caching).layout() is Single { 1int } else { 4int }) - 2,
        2 <= y < (height as int / if old(caching).layout() is Single { 1int } else { 2int }) - 2,
    ensures
        outcome is Cached,
        ({
            let cols = if old(caching).layout() is Single { 1int } else { 4int };
            let view_w = width as int / cols;
            let view_h = height as int / if old(caching).layout() is Single { 1int } else { 2int };
            let sx = (frame.width - crop_w) / 2 + x * (crop_w - 1) / (view_w - 1);
            let sy = (frame.height - crop_h) / 2 + y * (crop_h - 1) / (view_h - 1);
            let from = (sy * frame.width + sx) * 3;
            let at = ((row * view_h + y) * width + (col * view_w + x)) * 4;
            &&& 0 <= at && at + 3 < out@.len()
            &&& 0 <= from && from + 2 < frame.pixels@.len()
            &&& out@[at] == frame.pixels@[from]
            &&& out@[at + 1] == frame.pixels@[from + 1]
            &&& out@[at + 2] == frame.pixels@[from + 2]
            &&& out@[at + 3] == 255
        }),
{
    let layout = old(caching).layout();
    assert(frame.width > 0 && frame.height > 0);
    assert(k < old(caching).frames().len()) by {
        let cols = if layout is Single { 1int } else { 4int };
        assert(row * cols == if layout is Single { 0int } else { row * 4 }) by (nonlinear_arith)
            requires
                layout is Single ==> row == 0,
                layout !is Single ==> cols == 4,
        ;
    }
    assert(outcome is Cached);
    crate::renderer::law_view_shows_its_frame(
        layout,
        old(rendering).frames(),
        width as int,
        height as int,
        col,
        row,
        x,
        y,
        crop_w,
        crop_h,
    );
}

/// A picture has four bytes for each pixel. Every view has an opaque border of two pixels,
/// dark grey where a frame is cached for it and light grey where none is, and is opaque black
/// inside where none is. What is left over beside and below the grid is transparent.
pub proof fn law_render_draws_the_grid(
    renderer: &mut MultiViewRenderer,
    width: usize,
    height: usize,
    out: &[u8],
    px: int,
    py: int,
)
    requires
        call_ensures(MultiViewRenderer::render, (renderer, width, height), out),
        0 <= px < width,
        0 <= py < height,
    ensures
        out@.len() == 4 * (width * height),
        ({
            let cols = if old(renderer).layout() is Single { 1int } else { 4int };
            let rows = if old(renderer).layout() is Single { 1int } else { 2int };
            let view_w = width as int / cols;
            let view_h = height as int / rows;
            let at = (py * width + px) * 4;
            if px < cols * view_w && py < rows * view_h {
                let frame = old(renderer).frames()[(py / view_h) * cols + px / view_w];
                let x = px % view_w;
                let y = py % view_h;
                let border = x < 2 || x >= view_w - 2 || y < 2 || y >= view_h - 2;
                let grey: u8 = if frame is Some { 70 } else { 180 };
                &&& out@[at + 3] == 255
                &&& border ==> out@[at] == grey && out@[at + 1] == grey && out@[at + 2] == grey
                &&& !border && frame is None ==> out@[at] == 0 && out@[at + 1] == 0 && out@[at + 2]
                    == 0
            } else {
                out@[at] == 0 && out@[at + 1] == 0 && out@[at + 2] == 0 && out@[at + 3] == 0
            }
        }),
{
    let layout = old(renderer).layout();
    let frames = old(renderer).frames();
    let w = width as int;
    let h = height as int;
    let cols = if layout is Single { 1int } else { 4int };
    let rows = if layout is Single { 1int } else { 2int };
    let vw = w / cols;
    let vh = h / rows;
    crate::renderer::law_picture_len(layout, frames, w, h);
    if px < cols * vw && py < rows * vh {
        crate::renderer::lemma_grid_place(px, vw, cols);
        crate::renderer::lemma_grid_place(py, vh, rows);
        crate::renderer::law_view_without_picture(
            layout,
            frames,
            w,
            h,
            px / vw,
            py / vh,
            px % vw,
            py % vh,
        );
    } else {
        crate::renderer::law_rest_is_transparent(layout, frames, w, h, px, py);
    }
}

/// A view that was cleared is empty, whatever was cached for it, and all other views show
/// what they showed.
pub proof fn law_cleared_view_is_empty(
    clearing: &mut MultiViewRenderer,
    k: usize,
    other: int,
)
    requires
        call_ensures(MultiViewRenderer::clear_frame, (clearing, k), ()),
    ensures
        final(clearing).frames().len() == old(clearing).frames().len(),
        k < old(clearing).frames().len() ==> final(clearing).frames()[k as int] is None,
        0 <= other < old(clearing).frames().len() && other != k ==> final(clearing).frames()[other]
            == old(clearing).frames()[other],
{
}

/// A frame that is not cached changes nothing, and the outcome says why: there is no such
/// view, the frame has no pixels, or fewer bytes than three for each of them.
pub proof fn law_refused_frames(
    caching: &mut MultiViewRenderer,
    k: usize,
    frame: crate::renderer::FrameData,
    outcome: CacheOutcome,
    other: int,
)
    requires
        call_ensures(MultiViewRenderer::cache_frame, (caching, k, frame), outcome),
    ensures
        outcome is NoSuchView <==> k >= old(caching).frames().len(),
        outcome is InvalidResolution <==> k < old(caching).frames().len() && (frame.width == 0
            || frame.height == 0),
        outcome is Incomplete <==> k < old(caching).frames().len() && frame.width > 0
            && frame.height > 0 && frame.pixels@.len() < 3 * (frame.width * frame.height),
        outcome !is Cached ==> final(caching).frames() == old(caching).frames(),
        outcome is Cached ==> final(caching).frames().len() == old(caching).frames().len()
            && final(caching).frames()[k as int] == Some(frame),
        0 <= other < old(caching).frames().len() && other != k ==> final(caching).frames()[other]
            == old(caching).frames()[other],
{
}

/// Each byte of the planes of a frame is what the caller makes of one of its pixels: of that
/// at `(x, y)` for the brightness, and of that at `(2 * x, 2 * y)` for the colours, with the
/// pixels counted by the width of the frame; behind the end of the frame it is zero.
pub proof fn law_to_yuv<
    Y: Fn(u8, u8, u8) -> u8 + Sync,
    U: Fn(u8, u8, u8) -> u8 + Sync,
    V: Fn(u8, u8, u8) -> u8 + Sync,
>(
    pixels: &[u8],
    width: u32,
    target_width: u32,
    target_height: u32,
    luma: Y,
    blue: U,
    red: V,
    yuv: Vec<u8>,
    x: int,
    y: int,
)
    requires
        call_ensures(
            to_yuv::<Y, U, V>,
            (pixels, width, target_width, target_height, &luma, &blue, &red),
            yuv,
        ),
    ensures
        yuv@.len() == target_width * target_height + 2 * ((target_width / 2) * (target_height / 2)),
        0 <= x < target_width && 0 <= y < target_height ==> {
            let p = (y * width + x) * 3;
            let byte = yuv@[y * target_width + x];
            if p + 2 < pixels@.len() {
                call_ensures(luma, (pixels@[p], pixels@[p + 1], pixels@[p + 2]), byte)
            } else {
                byte == 0
            }
        },
        0 <= x < target_width / 2 && 0 <= y < target_height / 2 ==> {
            let p = (2 * y * width + 2 * x) * 3;
            let first = target_width * target_height + y * (target_width / 2) + x;
            let u = yuv@[first];
            let v = yuv@[first + (target_width / 2) * (target_height / 2)];
            if p + 2 < pixels@.len() {
                &&& call_ensures(blue, (pixels@[p], pixels@[p + 1], pixels@[p + 2]), u)
                &&& call_ensures(red, (pixels@[p], pixels@[p + 1], pixels@[p + 2]), v)
            } else {
                u == 0 && v == 0
            }
        },
{
    crate::yuv::law_planes_hold_the_pixels(
        yuv@,
        pixels@,
        width,
        target_width,
        target_height,
        luma,
        blue,
        red,
        x,
        y,
    );
}

/// The first frame of a recording, where it is complete, is handed to the encoder whole and
/// at its own size: each byte of its planes is what the caller makes of the pixel at its
/// place.
pub proof fn law_first_frame_is_encoded_whole<
    Y: Fn(u8, u8, u8) -> u8 + Sync,
    U: Fn(u8, u8, u8) -> u8 + Sync,
    V: Fn(u8, u8, u8) -> u8 + Sync,
>(
    encoder: &mut FrameEncoder,
    frame: crate::capture::FrameData,
    luma: Y,
    blue: U,
    red: V,
    outcome: EncodeOutcome,
    x: int,
    y: int,
)
    requires
        call_ensures(
            FrameEncoder::encode::<Y, U, V>,
            (encoder, &frame, &luma, &blue, &red),
            outcome,
        ),
        !old(encoder).running(),
        outcome !is NoEncoder,
        frame.width * frame.height * 3 <= frame.pixels@.len(),
    ensures
        ({
            let w = frame.width;
            let h = frame.height;
            let pixels = frame.pixels@;
            let (yuv, width, height) = final(encoder).pictures().last();
            &&& width == w
            &&& height == h
            &&& 0 <= x < w && 0 <= y < h ==> {
                let n = y * w + x;
                call_ensures(luma, (pixels[n * 3], pixels[n * 3 + 1], pixels[n * 3 + 2]), yuv[n])
            }
            &&& 0 <= x < w / 2 && 0 <= y < h / 2 ==> {
                let n = 2 * y * w + 2 * x;
                let first = w * h + y * (w / 2) + x;
                let rgb = (pixels[n * 3], pixels[n * 3 + 1], pixels[n * 3 + 2]);
                &&& call_ensures(blue, rgb, yuv[first])
                &&& call_ensures(red, rgb, yuv[first + (w / 2) * (h / 2)])
            }
        }),
{
    let (yuv, width, height) = final(encoder).pictures().last();
    crate::yuv::law_complete_frame_is_recorded_whole(
        yuv,
        frame.pixels@,
        frame.width,
        frame.height,
        luma,
        blue,
        red,
        x,
        y,
    );
}

/// Every later frame of a recording is handed to the encoder too, at the size that was set,
/// after all those before; what the encoder returned for it is the outcome.
pub proof fn law_later_frames_keep_the_size<
    Y: Fn(u8, u8, u8) -> u8 + Sync,
    U: Fn(u8, u8, u8) -> u8 + Sync,
    V: Fn(u8, u8, u8) -> u8 + Sync,
>(
    encoder: &mut FrameEncoder,
    frame: crate::capture::FrameData,
    luma: Y,
    blue: U,
    red: V,
    outcome: EncodeOutcome,
    x: int,
    y: int,
)
    requires
        call_ensures(
            FrameEncoder::encode::<Y, U, V>,
            (encoder, &frame, &luma, &blue, &red),
            outcome,
        ),
        old(encoder).running(),
    ensures
        final(encoder).running(),
        final(encoder).target() == old(encoder).target(),
        final(encoder).pictures().len() == old(encoder).pictures().len() + 1,
        final(encoder).pictures().drop_last() == old(encoder).pictures(),
        final(encoder).pictures().last().1 == old(encoder).target().0,
        final(encoder).pictures().last().2 == old(encoder).target().1,
        final(encoder).replies().len() == old(encoder).replies().len() + 1,
        final(encoder).replies().drop_last() == old(encoder).replies(),
        match outcome {
            EncodeOutcome::Encoded(bits) => final(encoder).replies().last() == Some(bits@),
            EncodeOutcome::Skipped => final(encoder).replies().last() is None,
            EncodeOutcome::NoEncoder(_) => false,
        },
        0 <= x < old(encoder).target().0 && 0 <= y < old(encoder).target().1 ==> {
            let p = (y * frame.width + x) * 3;
            let byte = final(encoder).pictures().last().0[y * old(encoder).target().0 + x];
            if p + 2 < frame.pixels@.len() {
                call_ensures(
                    luma,
                    (frame.pixels@[p], frame.pixels@[p + 1], frame.pixels@[p + 2]),
                    byte,
                )
            } else {
                byte == 0
            }
        },
        0 <= x < old(encoder).target().0 / 2 && 0 <= y < old(encoder).target().1 / 2 ==> {
            let w = old(encoder).target().0;
            let h = old(encoder).target().1;
            let yuv = final(encoder).pictures().last().0;
            let p = (2 * y * frame.width + 2 * x) * 3;
            let first = w * h + y * (w / 2) + x;
            let u = yuv[first];
            let v = yuv[first + (w / 2) * (h / 2)];
            if p + 2 < frame.pixels@.len() {
                let rgb = (frame.pixels@[p], frame.pixels@[p + 1], frame.pixels@[p + 2]);
                call_ensures(blue, rgb, u) && call_ensures(red, rgb, v)
            } else {
                u == 0 && v == 0
            }
        },
{
    let target = old(encoder).target();
    assert(final(encoder).pictures().drop_last() =~= old(encoder).pictures());
    assert(final(encoder).replies().drop_last() =~= old(encoder).replies());
    crate::yuv::law_planes_hold_the_pixels(
        final(encoder).pictures().last().0,
        frame.pixels@,
        frame.width,
        target.0,
        target.1,
        luma,
        blue,
        red,
        x,
        y,
    );
}

/// The bytes that the encoder returned are handed on as they are.
pub proof fn law_encoded_bytes_are_handed_on(bits: Option<Vec<u8>>, outcome: EncodeOutcome)
    requires
        call_ensures(encode_outcome, (bits,), outcome),
    ensures
        bits is Some ==> outcome == EncodeOutcome::Encoded(bits->0),
        bits is None ==> outcome is Skipped,
{
}

/// A capture thread delivers a picture that was decoded with its own width, its own height
/// and all its bytes, and one without pixels as a message.
pub proof fn law_step_delivers_decoded_pictures(
    thread: &mut CaptureLoop,
    image: RgbImage,
    action: CaptureAction,
)
    requires
        call_ensures(CaptureLoop::step, (thread, CaptureEvent::Decoded(Ok(image))), action),
    ensures
        action is Deliver,
        image.width > 0 && image.height > 0 ==> {
            &&& action->Deliver_0 is Ok
            &&& action->Deliver_0->Ok_0.width == image.width
            &&& action->Deliver_0->Ok_0.height == image.height
            &&& action->Deliver_0->Ok_0.pixels@ == image.pixels@
        },
        image.width == 0 || image.height == 0 ==> action->Deliver_0 is Err,
        final(thread).phase is Delivering,
{
    crate::capture::law_decoded_picture_is_delivered_whole(image, action->Deliver_0);
}

/// A capture thread delivers a frame of raw pixels as it came: in red, green, blue with the
/// same bytes, and otherwise with three bytes for each pixel, at the same resolution.
pub proof fn law_step_delivers_captured_frames(
    thread: &mut CaptureLoop,
    raw: crate::capture::RawFrame,
    action: CaptureAction,
)
    requires
        call_ensures(CaptureLoop::step, (thread, CaptureEvent::Captured(raw)), action),
        raw.format !is Mjpeg,
    ensures
        action is Deliver,
        final(thread).phase is Delivering,
        action->Deliver_0 is Ok ==> {
            let f = action->Deliver_0->Ok_0;
            &&& f.width == raw.width
            &&& f.height == raw.height
            &&& f.width > 0
            &&& f.height > 0
            &&& f.width * f.height * 3 <= f.pixels@.len()
            &&& raw.format is RawRgb ==> f.pixels@ == raw.data@
        },
        raw.format is RawRgb && raw.width > 0 && raw.height > 0 && raw.width * 3 <= usize::MAX
            && raw.width * raw.height * 3 <= raw.data@.len() ==> action->Deliver_0 is Ok,
{
    crate::capture::law_well_sized_frames_fill_the_picture(
        raw.format,
        raw.width,
        raw.height,
        raw.data@,
    );
}

/// A capture thread delivers every failure as a message that says what failed, followed by
/// the text of the error. One without camera or stream ends after that; otherwise it goes on
/// with the stream, or with the next frame.
pub proof fn law_step_reports_failures(
    thread: &mut CaptureLoop,
    event: CaptureEvent,
    text: String,
    action: CaptureAction,
)
    requires
        call_ensures(CaptureLoop::step, (thread, event), action),
    ensures
        event == CaptureEvent::Created(Err(text)) ==> {
            &&& action is Deliver
            &&& action->Deliver_0 is Err
            &&& action->Deliver_0->Err_0@ == "Failed to create camera: "@ + text@
            &&& final(thread).phase is Failing
        },
        event == CaptureEvent::Opened(Err(text)) ==> {
            &&& action is Deliver
            &&& action->Deliver_0 is Err
            &&& action->Deliver_0->Err_0@ == "Failed to open stream: "@ + text@
            &&& final(thread).phase is Failing
        },
        event == CaptureEvent::CaptureFailed(text) ==> {
            &&& action is Deliver
            &&& action->Deliver_0 is Err
            &&& action->Deliver_0->Err_0@ == "Frame capture failed: "@ + text@
            &&& final(thread).phase is Delivering
        },
        event == CaptureEvent::Decoded(Err(text)) ==> {
            &&& action is Deliver
            &&& action->Deliver_0 is Err
            &&& action->Deliver_0->Err_0@ == "Frame decode failed: "@ + text@
            &&& final(thread).phase is Delivering
        },
        event == CaptureEvent::Created(Ok(())) ==> action is OpenStream && final(thread).phase
            is Opening,
        event == CaptureEvent::Opened(Ok(())) ==> action is CaptureFrame && final(thread).phase
            is Capturing,
        event == CaptureEvent::Delivered(true) && old(thread).phase is Delivering ==> action
            is CaptureFrame && final(thread).phase is Capturing,
        event == CaptureEvent::Delivered(true) && old(thread).phase is Failing ==> action is Finish
            && final(thread).phase is Finished,
        event == CaptureEvent::Delivered(false) ==> action is Finish && final(thread).phase
            is Finished,
{
}

/// An image becomes a frame with its own width, its own height and all its bytes, unless it
/// has no pixels; the same holds of the outcome of decoding, of which an error becomes a
/// message.
pub proof fn law_images_become_frames(
    image: RgbImage,
    outcome: Result<RgbImage, String>,
    a: Result<crate::capture::FrameData, String>,
    b: Result<crate::capture::FrameData, String>,
)
    requires
        call_ensures(accept_image, (image,), a),
        call_ensures(accept_decoded, (outcome,), b),
    ensures
        a is Ok <==> image.width > 0 && image.height > 0,
        a is Ok ==> {
            &&& a->Ok_0.width == image.width
            &&& a->Ok_0.height == image.height
            &&& a->Ok_0.pixels@ == image.pixels@
        },
        b is Ok <==> outcome is Ok && outcome->Ok_0.width > 0 && outcome->Ok_0.height > 0,
        b is Ok ==> {
            &&& b->Ok_0.width == outcome->Ok_0.width
            &&& b->Ok_0.height == outcome->Ok_0.height
            &&& b->Ok_0.pixels@ == outcome->Ok_0.pixels@
        },
        outcome is Err ==> b is Err && b->Err_0@ == "Frame decode failed: "@ + outcome->Err_0@,
{
}

/// Waiting deliveries come to the last message where there is one, to the last frame where
/// there are only frames, and to nothing where nothing waits.
pub proof fn law_newest_delivery(
    received: Vec<Result<crate::capture::FrameData, String>>,
    j: int,
    r: Result<Option<crate::capture::FrameData>, String>,
)
    requires
        call_ensures(newest_delivery, (received,), r),
    ensures
        received@.len() == 0 ==> r is Ok && r->Ok_0 is None,
        received@.len() > 0 && (forall|i: int|
            0 <= i < received@.len() ==> #[trigger] received@[i] is Ok) ==> r is Ok && r->Ok_0
            == Some(received@[received@.len() - 1]->Ok_0),
        0 <= j < received@.len() && received@[j] is Err && (forall|i: int|
            j < i < received@.len() ==> #[trigger] received@[i] is Ok) ==> r is Err && r->Err_0
            == received@[j]->Err_0,
{
    let s = received@;
    if forall|i: int| 0 <= i < s.len() ==> #[trigger] s[i] is Ok {
        crate::capture::law_newest_is_the_last_frame(s);
    }
    if 0 <= j < s.len() && s[j] is Err && (forall|i: int|
        j < i < s.len() ==> #[trigger] s[i] is Ok) {
        crate::capture::law_last_message_wins(s, j);
    }
}

/// A source that has been started answers a request with the last of the waiting messages
/// where there is one, with the last of the waiting frames, be there one or many, where there
/// are only frames, and with no frame where nothing waits. One that has not been started is
/// started on its device. It is started afterwards in any case.
pub proof fn law_camera_source_answers(
    source: &mut CameraSource,
    received: Vec<Result<crate::capture::FrameData, String>>,
    j: int,
    r: Result<FrameReply, String>,
)
    requires
        call_ensures(CameraSource::get_frame, (source, received), r),
    ensures
        final(source).started(),
        final(source).device() == old(source).device(),
        !old(source).started() ==> r is Ok && r->Ok_0 == FrameReply::Start(old(source).device()),
        old(source).started() && received@.len() == 0 ==> r is Ok && r->Ok_0 == FrameReply::Frame(
            None,
        ),
        old(source).started() && received@.len() > 0 && (forall|i: int|
            0 <= i < received@.len() ==> #[trigger] received@[i] is Ok) ==> r is Ok && r->Ok_0
            == FrameReply::Frame(Some(received@[received@.len() - 1]->Ok_0)),
        old(source).started() && 0 <= j < received@.len() && received@[j] is Err && (forall|i: int|
            j < i < received@.len() ==> #[trigger] received@[i] is Ok) ==> r is Err && r->Err_0
            == received@[j]->Err_0,
{
    let s = received@;
    if forall|i: int| 0 <= i < s.len() ==> #[trigger] s[i] is Ok {
        crate::capture::law_newest_is_the_last_frame(s);
    }
    if 0 <= j < s.len() && s[j] is Err && (forall|i: int|
        j < i < s.len() ==> #[trigger] s[i] is Ok) {
        crate::capture::law_last_message_wins(s, j);
    }
}

/// A source that was started before, by being opened or for a request, answers the next
/// request with the last of the waiting frames, where there are only frames.
pub proof fn law_opened_source_answers(
    opening: &mut SourceManager,
    asking: &mut SourceManager,
    id: SourceId,
    opened: Result<Option<CameraIndex>, String>,
    received: Vec<Result<crate::capture::FrameData, String>>,
    r: Result<FrameReply, String>,
)
    requires
        call_ensures(SourceManager::open_source, (opening, id), opened),
        *final(opening) == *old(asking),
        call_ensures(SourceManager::get_frame, (asking, id, received), r),
        received@.len() > 0,
        forall|i: int| 0 <= i < received@.len() ==> #[trigger] received@[i] is Ok,
    ensures
        opened is Ok <==> id.0 < old(opening).started().len(),
        opened is Ok ==> r is Ok && r->Ok_0 == FrameReply::Frame(
            Some(received@[received@.len() - 1]->Ok_0),
        ),
        opened is Err ==> r is Err && r->Err_0@ == opened->Err_0@,
{
    crate::capture::law_newest_is_the_last_frame(received@);
}

/// The same of a camera: once it was opened, a request is answered with the last of the
/// waiting frames, where there are only frames.
pub proof fn law_opened_camera_answers(
    opening: &mut CameraManager,
    asking: &mut CameraManager,
    id: CameraId,
    opened: Result<Option<CameraIndex>, String>,
    received: Vec<Result<crate::capture::FrameData, String>>,
    r: Result<FrameReply, String>,
)
    requires
        call_ensures(CameraManager::open_camera, (opening, id), opened),
        *final(opening) == *old(asking),
        call_ensures(CameraManager::get_frame, (asking, id, received), r),
        old(opening).wf(),
        received@.len() > 0,
        forall|i: int| 0 <= i < received@.len() ==> #[trigger] received@[i] is Ok,
    ensures
        opened is Ok <==> id.0 < old(opening).cameras().len(),
        opened is Ok ==> r is Ok && r->Ok_0 == FrameReply::Frame(
            Some(received@[received@.len() - 1]->Ok_0),
        ),
        opened is Err ==> r is Err && r->Err_0@ == opened->Err_0@,
{
    crate::capture::law_newest_is_the_last_frame(received@);
}

/// A camera that was closed is started anew, on its own device, by the next opening, and one
/// that was opened is not started again.
pub proof fn law_closed_camera_is_started_anew(
    closing: &mut CameraManager,
    opening: &mut CameraManager,
    again: &mut CameraManager,
    id: CameraId,
    first: Result<Option<CameraIndex>, String>,
    second: Result<Option<CameraIndex>, String>,
)
    requires
        call_ensures(CameraManager::close_camera, (closing, id), ()),
        *final(closing) == *old(opening),
        call_ensures(CameraManager::open_camera, (opening, id), first),
        *final(opening) == *old(again),
        call_ensures(CameraManager::open_camera, (again, id), second),
        id.0 < old(closing).cameras().len(),
    ensures
        first is Ok && first->Ok_0 == Some(old(closing).cameras()[id.0 as int].index),
        second is Ok && second->Ok_0 is None,
        final(again).active() == final(opening).active(),
{
    assert(final(opening).active().insert(id.0) =~= final(opening).active());
}

/// A source that was closed is started anew, on its own device, by the next opening, and one
/// that was opened is not started again.
pub proof fn law_closed_source_is_started_anew(
    closing: &mut SourceManager,
    opening: &mut SourceManager,
    again: &mut SourceManager,
    id: SourceId,
    first: Result<Option<CameraIndex>, String>,
    second: Result<Option<CameraIndex>, String>,
)
    requires
        call_ensures(SourceManager::close_source, (closing, id), ()),
        *final(closing) == *old(opening),
        call_ensures(SourceManager::open_source, (opening, id), first),
        *final(opening) == *old(again),
        call_ensures(SourceManager::open_source, (again, id), second),
        id.0 < old(closing).started().len(),
    ensures
        first is Ok && first->Ok_0 == Some(old(closing).devices()[id.0 as int]),
        second is Ok && second->Ok_0 is None,
{
}

/// A view shows the source that was assigned to it last, and there is such a view exactly
/// where its number is less than the number of views.
pub proof fn law_assigned_source_is_shown(
    config: &mut LayoutConfig,
    index: usize,
    source_id: Option<SourceId>,
    asked: usize,
    before: Option<&ViewDescriptor>,
    after: Option<&ViewDescriptor>,
)
    requires
        call_ensures(LayoutConfig::view, (&*old(config), asked), before),
        call_ensures(LayoutConfig::assign_source, (config, index, source_id), ()),
        call_ensures(LayoutConfig::view, (&*final(config), asked), after),
    ensures
        after is Some <==> before is Some,
        after is Some && asked == index ==> after->0.source_id == source_id,
        after is Some && asked != index ==> after->0.source_id == before->0.source_id,
{
}

/// A layout is one view, or eight in two rows of four.
pub proof fn law_layout_calls(layout: LayoutType, dimensions: (usize, usize), views: usize)
    requires
        call_ensures(LayoutType::dimensions, (&layout,), dimensions),
        call_ensures(LayoutType::view_count, (&layout,), views),
    ensures
        layout is Single ==> dimensions == (1usize, 1usize) && views == 1,
        layout is Inputs4x2 ==> dimensions == (4usize, 2usize) && views == 8,
{
}

/// What was set for a target is recorded from the next start on: it is started then, unless
/// it was being recorded already, and its frames are taken from then on. What was switched off
/// is not started.
pub proof fn law_selected_targets_are_recorded(
    configs: &mut RecordConfigs,
    starting: &mut RecorderManager,
    target: RecordingTarget,
    enabled: bool,
    before: Option<bool>,
    starts: Vec<RecordingStart>,
    frame: Arc<crate::capture::FrameData>,
    queued: Option<Arc<crate::capture::FrameData>>,
)
    requires
        call_ensures(RecordConfigs::insert, (configs, target, enabled), before),
        *final(configs) == old(starting).record_configs,
        call_ensures(RecorderManager::start_selected, (starting,), starts),
        call_ensures(RecorderManager::dispatch_frame, (&*final(starting), target, frame), queued),
    ensures
        enabled && !old(starting).sessions@.contains(target) ==> exists|i: int|
            0 <= i < starts@.len() && (#[trigger] starts@[i]).target == target,
        enabled ==> queued == Some(frame),
        !enabled || old(starting).sessions@.contains(target) ==> forall|i: int|
            0 <= i < starts@.len() ==> (#[trigger] starts@[i]).target != target,
        !enabled && !old(starting).sessions@.contains(target) ==> queued is None,
{
    let m = *old(starting);
    assert(m.to_start(target) <==> enabled && !m.sessions@.contains(target));
    crate::recorder::law_starts_are_what_is_new(m.record_configs@, m.sessions@, target);
}

/// After stopping nothing is being recorded, and no frame is taken.
pub proof fn law_stopping_ends_everything(
    stopping: &mut RecorderManager,
    stopped: Vec<RecordingTarget>,
    target: RecordingTarget,
    frame: Arc<crate::capture::FrameData>,
    queued: Option<Arc<crate::capture::FrameData>>,
    recording: bool,
)
    requires
        call_ensures(RecorderManager::stop_all, (stopping,), stopped),
        call_ensures(RecorderManager::dispatch_frame, (&*final(stopping), target, frame), queued),
        call_ensures(RecorderManager::is_recording, (&*final(stopping),), recording),
    ensures
        queued is None,
        !recording,
        stopped@.contains(target) <==> old(stopping).sessions@.contains(target),
{
}

/// The name of a file is the time, the name of the target and the ending, and an input is
/// named by its number, counted from one.
pub proof fn law_recording_file_names(
    stamp: &str,
    target: RecordingTarget,
    name: String,
    file: String,
)
    requires
        call_ensures(RecordingTarget::name, (&target,), name),
        call_ensures(recording_file_name, (stamp, target), file),
    ensures
        file@ == stamp@ + "_"@ + name@ + ".h264"@,
        target is Preview ==> name@ == "Preview"@,
        target is Program ==> name@ == "Program"@,
        target is Input ==> {
            &&& name@.len() > 6
            &&& name@.subrange(0, 6) == "Input_"@
            &&& crate::text::number(name@.subrange(6, name@.len() as int)) == target->0 + 1
        },
{
    if target is Input {
        crate::recorder::law_inputs_are_counted_from_one(target->0);
    }
}

/// The notation of a number reads back as that number and has no needless zero.
pub proof fn law_decimal_text(n: u128, s: String)
    requires
        call_ensures(decimal_text, (n,), s),
    ensures
        s@.len() >= 1,
        crate::text::number(s@) == n,
        forall|i: int| 0 <= i < s@.len() ==> '0' <= #[trigger] s@[i] <= '9',
        s@[0] == '0' ==> n == 0 && s@.len() == 1,
{
    crate::text::law_decimal_reads_back(n as nat);
}

/// An encoding thread encodes each frame it receives and queues the bytes that come of it;
/// it goes on after a frame that was refused or found no room, and ends with its input or for
/// want of an encoder.
pub proof fn law_encoder_steps(
    thread: &mut EncoderLoop,
    event: EncoderEvent,
    action: EncoderAction,
)
    requires
        call_ensures(EncoderLoop::step, (thread, event), action),
    ensures
        event matches EncoderEvent::Received(Some(frame)) ==> action == EncoderAction::Encode(
            frame,
        ),
        event matches EncoderEvent::Received(None) ==> action is Stop,
        event matches EncoderEvent::Encoded(EncodeOutcome::Encoded(bits)) ==> action
            == EncoderAction::Queue(bits),
        event matches EncoderEvent::Encoded(EncodeOutcome::Skipped) ==> action is Receive,
        event matches EncoderEvent::Encoded(EncodeOutcome::NoEncoder(text)) ==> action
            == EncoderAction::Fail(text),
        event matches EncoderEvent::Queued(_) ==> action is Receive,
        final(thread).phase is Stopped <==> action is Stop || action is Fail,
        final(thread).phase is Receiving <==> action is Receive,
        final(thread).phase is Encoding <==> action is Encode,
        final(thread).phase is Queueing <==> action is Queue,
{
}

/// A writing thread writes what it receives, as it is, and flushes when there is no more or a
/// write failed; it stops after that, or where there is no file.
pub proof fn law_writer_steps(thread: &mut WriterLoop, event: WriterEvent, action: WriterAction)
    requires
        call_ensures(WriterLoop::step, (thread, event), action),
    ensures
        event matches WriterEvent::Received(Some(data)) ==> action == WriterAction::Write(data),
        event matches WriterEvent::Received(None) ==> action is Flush,
        event matches WriterEvent::Created(done) ==> if done {
            action is Receive
        } else {
            action is Stop
        },
        event matches WriterEvent::Written(done) ==> if done {
            action is Receive
        } else {
            action is Flush
        },
        event is Flushed ==> action is Stop,
        final(thread).phase is Stopped <==> action is Stop,
        final(thread).phase is Receiving <==> action is Receive,
        final(thread).phase is Writing <==> action is Write,
        final(thread).phase is Flushing <==> action is Flush,
{
}

/// An encoder takes a frame exactly where the size of the recording, which is that of the
/// frame where it is the first, has even sides and a column, and three times its pixels can
/// be counted.
pub proof fn law_accepted_frames(encoder: FrameEncoder, frame: crate::capture::FrameData, b: bool)
    requires
        call_ensures(FrameEncoder::accepts, (&encoder, &frame), b),
    ensures
        ({
            let w = if encoder.running() { encoder.target().0 } else { frame.width };
            let h = if encoder.running() { encoder.target().1 } else { frame.height };
            b <==> w > 0 && w % 2 == 0 && h % 2 == 0 && 3 * (w * h) <= usize::MAX
        }),
{
    crate::recorder::law_encodable_pictures_fit(frame.width, frame.height);
    crate::recorder::law_encodable_pictures_fit(encoder.target().0, encoder.target().1);
}

/// What was set for a target is found, what was set for another is kept, and what was removed
/// is gone.
pub proof fn law_settings_are_kept(
    setting: &mut RecordConfigs,
    removing: &mut RecordConfigs,
    target: RecordingTarget,
    enabled: bool,
    before: Option<bool>,
    removed: Option<bool>,
    other: RecordingTarget,
    found: Option<&bool>,
    kept: Option<&bool>,
    gone: Option<&bool>,
    first: Option<&bool>,
)
    requires
        call_ensures(RecordConfigs::get, (&*old(setting), &other), first),
        call_ensures(RecordConfigs::insert, (setting, target, enabled), before),
        call_ensures(RecordConfigs::get, (&*final(setting), &target), found),
        call_ensures(RecordConfigs::get, (&*final(setting), &other), kept),
        *final(setting) == *old(removing),
        call_ensures(RecordConfigs::remove, (removing, &target), removed),
        call_ensures(RecordConfigs::get, (&*final(removing), &target), gone),
    ensures
        found == Some(&enabled),
        other != target ==> kept == first,
        removed == Some(enabled),
        gone is None,
{
}

/// Every recording that is started has a file named by the time and by its target, and no
/// target is started twice.
pub proof fn law_started_files(
    starting: &mut RecorderManager,
    starts: Vec<RecordingStart>,
    i: int,
    j: int,
)
    requires
        call_ensures(RecorderManager::start_selected, (starting,), starts),
        0 <= i < starts@.len(),
    ensures
        ({
            let name = starts@[i].file_name@;
            let label = starts@[i].target.label();
            let n = name.len() as int;
            &&& n >= 21 + label.len()
            &&& name.subrange(n - 5, n) == ".h264"@
            &&& name.subrange(n - 5 - label.len(), n - 5) == label
            &&& name[n - 6 - label.len()] == '_'
            &&& name[n - 13 - label.len()] == '_'
        }),
        0 <= j < starts@.len() && i != j ==> starts@[i].target != starts@[j].target,
        final(starting).save_dir == old(starting).save_dir,
        final(starting).show_settings == old(starting).show_settings,
        final(starting).record_configs == old(starting).record_configs,
{
    assert(crate::recorder::is_dated_name(starts@[i].file_name@, starts@[i].target));
    crate::recorder::law_dated_names(starts@[i].file_name@, starts@[i].target);
    if 0 <= j < i {
        assert(starts@[j].target != starts@[i].target);
    }
}

/// The cameras are numbered in the order of the devices, each with the name and the index of
/// its device, and opening one starts that device.
pub proof fn law_cameras_are_the_devices(
    devices: Vec<DeviceInfo>,
    opening: &mut CameraManager,
    listed: &[CameraInfo],
    id: CameraId,
    r: Result<Option<CameraIndex>, String>,
)
    requires
        call_ensures(CameraManager::new, (devices,), *old(opening)),
        call_ensures(CameraManager::available_cameras, (&*old(opening),), listed),
        call_ensures(CameraManager::open_camera, (opening, id), r),
    ensures
        listed@.len() == devices@.len(),
        forall|i: int|
            0 <= i < listed@.len() ==> {
                &&& (#[trigger] listed@[i]).id.0 == i
                &&& listed@[i].name == devices@[i].name
                &&& listed@[i].index == devices@[i].index
            },
        id.0 < devices@.len() ==> r is Ok && r->Ok_0 == Some(devices@[id.0 as int].index),
        id.0 >= devices@.len() ==> r is Err,
{
}

/// The sources are numbered in the order of the devices, each with the name of its device,
/// and opening one starts that device.
pub proof fn law_sources_are_the_devices(
    devices: Vec<DeviceInfo>,
    opening: &mut SourceManager,
    listed: &[SourceInfo],
    ids: Vec<SourceId>,
    id: SourceId,
    r: Result<Option<CameraIndex>, String>,
)
    requires
        call_ensures(SourceManager::new, (devices,), *old(opening)),
        call_ensures(SourceManager::available_sources, (&*old(opening),), listed),
        call_ensures(SourceManager::active_source_ids, (&*old(opening),), ids),
        call_ensures(SourceManager::open_source, (opening, id), r),
    ensures
        listed@.len() == devices@.len(),
        ids@.len() == devices@.len(),
        forall|i: int|
            0 <= i < listed@.len() ==> (#[trigger] listed@[i]).id.0 == i && listed@[i].name@
                == devices@[i].name@,
        forall|i: int| 0 <= i < ids@.len() ==> (#[trigger] ids@[i]).0 == i,
        id.0 < devices@.len() ==> r is Ok && r->Ok_0 == Some(devices@[id.0 as int].index),
        id.0 >= devices@.len() ==> r is Err,
{
    assert(old(opening).names() == devices@.map_values(|d: DeviceInfo| d.name@));
    assert(old(opening).devices() == devices@.map_values(|d: DeviceInfo| d.index));
    assert(old(opening).started() == devices@.map_values(|d: DeviceInfo| false));
    assert forall|i: int| 0 <= i < ids@.len() implies (#[trigger] ids@[i]).0 == i by {
        assert(listed@[i].id.0 == i);
    }
}

/// A new renderer has one empty view, or eight.
pub proof fn law_new_renderer_is_empty(layout: LayoutType, r: MultiViewRenderer, k: int)
    requires
        call_ensures(MultiViewRenderer::new, (layout,), r),
    ensures
        r.layout() == layout,
        r.frames().len() == if layout is Single { 1int } else { 8int },
        0 <= k < r.frames().len() ==> r.frames()[k] is None,
{
}

} // verus!
