//! What a capture thread does with a camera.
//!
//! The thread creates the camera, opens its stream, and then captures, decodes and
//! delivers one frame after another. [`CaptureLoop`] decides each next step; the thread
//! performs it and reports the event that came of it.

use crate::text::{decimal_text, join3};
use nokhwa::pixel_format::RgbFormat;
use nokhwa::utils::Resolution;
use nokhwa::Buffer;
use std::sync::Arc;
use vstd::prelude::*;
use vstd::string::*;

verus! {

/// Number of frames that may wait between a capture thread and its manager.
pub const QUEUE_LEN: usize = 2;

/// Width in pixels that is asked of a camera.
pub const REQUESTED_WIDTH: u32 = 1280;

/// Height in pixels that is asked of a camera.
pub const REQUESTED_HEIGHT: u32 = 720;

/// How a camera is addressed: by number, or by a name such as a URL.
#[derive(Debug, PartialEq, Eq)]
pub enum CameraIndex {
    Index(u32),
    String(String),
}

impl Clone for CameraIndex {
    fn clone(&self) -> (c: Self)
        ensures
            c == *self,
    {
        match self {
            CameraIndex::Index(n) => CameraIndex::Index(*n),
            CameraIndex::String(s) => CameraIndex::String(s.clone()),
        }
    }
}

/// How the bytes of a captured frame are to be read.
#[derive(Debug, Clone, Copy, PartialEq, Eq, Structural)]
pub enum FrameFormat {
    /// Motion JPEG.
    Mjpeg,
    /// Packed YUV, two pixels in four bytes.
    Yuyv,
    /// Planar YUV with interleaved chroma, two by two pixels in six bytes.
    Nv12,
    /// One byte of brightness to a pixel.
    Gray,
    /// Red, green, blue.
    RawRgb,
    /// Blue, green, red.
    RawBgr,
}

/// A frame as the camera delivered it.
#[derive(Debug)]
pub struct RawFrame {
    pub format: FrameFormat,
    pub width: u32,
    pub height: u32,
    pub data: Vec<u8>,
}

/// A decoded picture, three bytes (red, green, blue) to a pixel.
#[derive(Debug)]
pub struct RgbImage {
    pub width: u32,
    pub height: u32,
    pub pixels: Vec<u8>,
}

/// A frame that is ready to be shown, three bytes (red, green, blue) to a pixel. The
/// pixels are shared, so that a clone does not copy them.
#[derive(Debug, Clone)]
pub struct FrameData {
    pub pixels: Arc<Vec<u8>>,
    pub width: u32,
    pub height: u32,
}

/// What a delivery says: width, height and pixels of a frame, or a message.
pub open spec fn delivered(r: Result<FrameData, String>) -> Result<
    (u32, u32, Seq<u8>),
    Seq<char>,
> {
    match r {
        Ok(frame) => Ok((frame.width, frame.height, frame.pixels@)),
        Err(message) => Err(message@),
    }
}

/// Whether a picture of `width` by `height` can be cut from `len` bytes.
pub open spec fn picture_fits(width: u32, height: u32, len: int) -> bool {
    width * 3 <= usize::MAX && width * height * 3 <= len
}

/// Whether a frame in a format other than Motion JPEG has the number of bytes that its
/// resolution asks for.
pub open spec fn well_sized(format: FrameFormat, width: u32, height: u32, len: int) -> bool {
    match format {
        FrameFormat::Mjpeg => false,
        FrameFormat::Yuyv => len % 4 == 0 && picture_fits(width, height, len / 4 * 6),
        FrameFormat::Nv12 => width % 2 == 0 && height % 2 == 0 && len == width * height * 3 / 2,
        FrameFormat::Gray => picture_fits(width, height, len * 3),
        FrameFormat::RawRgb => picture_fits(width, height, len),
        FrameFormat::RawBgr => picture_fits(width, height, len),
    }
}

/// Whether the decoder can be called on a frame: it gives up on a broken Motion JPEG
/// frame by unwinding, it counts the bytes of a planar frame in 32 bits, it cannot cut an
/// empty planar frame into rows, and what it returns has to fit into memory.
pub open spec fn decodable(format: FrameFormat, width: u32, height: u32, len: int) -> bool {
    &&& format !is Mjpeg
    &&& format is Nv12 ==> width * 3 <= u32::MAX && width * height * 3 <= u32::MAX && width * height
        * 3 <= isize::MAX && (width > 0 || height % 2 != 0 || len > 0)
    &&& len * 3 <= isize::MAX
}

/// The picture that `Buffer::decode_image` makes of the bytes of a frame, as its width, its
/// height and its pixels, or the text of its error.
pub uninterp spec fn decoded(
    format: FrameFormat,
    width: u32,
    height: u32,
    data: Seq<u8>,
) -> Result<(u32, u32, Seq<u8>), Seq<char>>;

/// The bytes of pixels in the order blue, green, red, in the order red, green, blue; the
/// rest of an incomplete pixel is black.
pub open spec fn swapped(data: Seq<u8>) -> Seq<u8> {
    Seq::new(
        data.len(),
        |i: int|
            if i - i % 3 + 2 < data.len() {
                data[i - i % 3 + 2 - i % 3]
            } else {
                0u8
            },
    )
}

/// The nearest byte to a number.
pub open spec fn clamped(n: int) -> u8 {
    if n < 0 {
        0
    } else if n > 255 {
        255
    } else {
        n as u8
    }
}

/// The bytes of a pixel of brightness `y` and colour differences `u` and `v`.
pub open spec fn yuv_rgb(y: u8, u: u8, v: u8) -> Seq<u8> {
    let c = 298 * (y - 16) + 128;
    let d = u - 128;
    let e = v - 128;
    seq![
        clamped((c + 409 * e) / 256),
        clamped((c - 100 * d - 208 * e) / 256),
        clamped((c + 516 * d) / 256),
    ]
}

/// The pixels of a packed frame: of four bytes, the first and the third are the brightness
/// of two pixels, which share the other two as their colour.
pub open spec fn packed_rgb(data: Seq<u8>) -> Seq<u8> {
    Seq::new(
        (data.len() / 4 * 6) as nat,
        |i: int|
            {
                let first = i / 6 * 4;
                yuv_rgb(data[first + i % 6 / 3 * 2], data[first + 1], data[first + 3])[i % 3]
            },
    )
}

/// The pixels of a planar frame: the brightness of all pixels comes first, then two bytes of
/// colour for every two by two pixels.
pub open spec fn planar_rgb(width: int, height: int, data: Seq<u8>) -> Seq<u8> {
    Seq::new(
        (width * height * 3) as nat,
        |i: int|
            {
                let x = i / 3 % width;
                let y = i / 3 / width;
                let colour = width * height + y / 2 * width + x / 2 * 2;
                yuv_rgb(data[i / 3], data[colour], data[colour + 1])[i % 3]
            },
    )
}

/// The pixels of a frame in a format other than Motion JPEG. One in red, green, blue is
/// taken over as it is, one in blue, green, red is swapped, a grey one has each byte three
/// times, and the two YUV formats are converted pixel by pixel.
pub open spec fn converted(format: FrameFormat, width: u32, height: u32, data: Seq<u8>) -> Seq<u8> {
    match format {
        FrameFormat::Mjpeg => Seq::empty(),
        FrameFormat::Yuyv => packed_rgb(data),
        FrameFormat::Nv12 => planar_rgb(width as int, height as int, data),
        FrameFormat::Gray => Seq::new(data.len() * 3, |i: int| data[i / 3]),
        FrameFormat::RawRgb => data,
        FrameFormat::RawBgr => swapped(data),
    }
}

/// What decoding came to: a picture, as its width, its height and its pixels, or the text of
/// the error.
pub open spec fn decode_outcome(r: Result<RgbImage, String>) -> Result<
    (u32, u32, Seq<u8>),
    Seq<char>,
> {
    match r {
        Ok(image) => Ok((image.width, image.height, image.pixels@)),
        Err(text) => Err(text@),
    }
}

/// Decodes the bytes of a frame with `nokhwa`'s `Buffer::decode_image` for `RgbFormat`. It
/// succeeds exactly where the frame is [`well_sized`]; the picture then has the frame's
/// resolution and the pixels that [`converted`] gives. The outcome depends on the arguments
/// alone and is named [`decoded`]; the text of an error is not spelled out here.
#[verifier::external_body]
fn decode_rgb(format: FrameFormat, width: u32, height: u32, data: &[u8]) -> (r: Result<
    RgbImage,
    String,
>)
    requires
        decodable(format, width, height, data@.len() as int),
    ensures
        r is Ok <==> well_sized(format, width, height, data@.len() as int),
        r matches Ok(image) ==> {
            &&& image.width == width
            &&& image.height == height
            &&& image.pixels@ == converted(format, width, height, data@)
        },
        decode_outcome(r) == decoded(format, width, height, data@),
{
    let fcc = match format {
        FrameFormat::Mjpeg => nokhwa::utils::FrameFormat::MJPEG,
        FrameFormat::Yuyv => nokhwa::utils::FrameFormat::YUYV,
        FrameFormat::Nv12 => nokhwa::utils::FrameFormat::NV12,
        FrameFormat::Gray => nokhwa::utils::FrameFormat::GRAY,
        FrameFormat::RawRgb => nokhwa::utils::FrameFormat::RAWRGB,
        FrameFormat::RawBgr => nokhwa::utils::FrameFormat::RAWBGR,
    };
    match Buffer::new(Resolution::new(width, height), data, fcc).decode_image::<RgbFormat>() {
        Ok(i) => Ok(RgbImage { width: i.width(), height: i.height(), pixels: i.into_raw() }),
        Err(e) => Err(e.to_string()),
    }
}

impl RawFrame {
    /// Whether [`decode_frame`] takes the frame. All others are decoded by the caller.
    pub fn is_decodable(&self) -> (b: bool)
        ensures
            b == decodable(self.format, self.width, self.height, self.data@.len() as int),
    {
        assert(0 <= self.width * self.height <= u32::MAX * u32::MAX) by (nonlinear_arith)
            requires
                0 <= self.width <= u32::MAX,
                0 <= self.height <= u32::MAX,
        ;
        let bytes: u128 = self.width as u128 * self.height as u128 * 3;
        let len: usize = self.data.len();
        let counted: bool = match self.format {
            FrameFormat::Mjpeg => false,
            FrameFormat::Nv12 => self.width as u128 * 3 <= u32::MAX as u128 && bytes
                <= u32::MAX as u128 && bytes <= isize::MAX as u128 && (self.width > 0 || self.height
                % 2 != 0 || len > 0),
            _ => true,
        };
        counted && len as u128 * 3 <= isize::MAX as u128
    }
}

/// What is delivered for a decoded picture: the frame, unless it has no pixels.
pub open spec fn accepted(width: u32, height: u32, pixels: Seq<u8>) -> Result<
    (u32, u32, Seq<u8>),
    Seq<char>,
> {
    if width == 0 || height == 0 {
        Err(
            "Invalid resolution: "@ + crate::text::decimal(width as nat) + "x"@
                + crate::text::decimal(height as nat),
        )
    } else {
        Ok((width, height, pixels))
    }
}

/// What is delivered for the outcome of decoding.
pub open spec fn decode_delivery(outcome: Result<(u32, u32, Seq<u8>), Seq<char>>) -> Result<
    (u32, u32, Seq<u8>),
    Seq<char>,
> {
    match outcome {
        Ok((width, height, pixels)) => accepted(width, height, pixels),
        Err(text) => Err("Frame decode failed: "@ + text),
    }
}

/// Takes a decoded picture as a frame, unless it has no pixels.
pub fn accept_image(image: RgbImage) -> (r: Result<FrameData, String>)
    ensures
        delivered(r) == accepted(image.width, image.height, image.pixels@),
{
    if image.width == 0 || image.height == 0 {
        let mut message: String = join3(
            "Invalid resolution: ",
            decimal_text(image.width as u128).as_str(),
            "x",
        );
        message.append(decimal_text(image.height as u128).as_str());
        Err(message)
    } else {
        Ok(
            FrameData {
                pixels: Arc::new(image.pixels),
                width: image.width,
                height: image.height,
            },
        )
    }
}

/// Takes the outcome of decoding: a picture becomes a frame, an error a message.
pub fn accept_decoded(outcome: Result<RgbImage, String>) -> (r: Result<FrameData, String>)
    ensures
        delivered(r) == decode_delivery(decode_outcome(outcome)),
{
    match outcome {
        Ok(image) => accept_image(image),
        Err(text) => Err("Frame decode failed: ".to_owned().concat(text.as_str())),
    }
}

/// Decodes a captured frame and takes the picture as a frame.
pub fn decode_frame(raw: &RawFrame) -> (r: Result<FrameData, String>)
    requires
        decodable(raw.format, raw.width, raw.height, raw.data@.len() as int),
    ensures
        delivered(r) == decode_delivery(decoded(raw.format, raw.width, raw.height, raw.data@)),
        r is Ok <==> raw.width > 0 && raw.height > 0 && well_sized(
            raw.format,
            raw.width,
            raw.height,
            raw.data@.len() as int,
        ),
        r matches Ok(frame) ==> {
            &&& frame.width == raw.width
            &&& frame.height == raw.height
            &&& frame.pixels@ == converted(raw.format, raw.width, raw.height, raw.data@)
            &&& frame.width * frame.height * 3 <= frame.pixels@.len()
        },
{
    accept_decoded(decode_rgb(raw.format, raw.width, raw.height, raw.data.as_slice()))
}

/// Where a capture thread stands.
#[derive(Debug, Clone, Copy, PartialEq, Eq, Structural)]
pub enum CapturePhase {
    /// The camera is being created.
    Creating,
    /// The stream is being opened.
    Opening,
    /// A frame is being captured.
    Capturing,
    /// A frame, or the message that there is none, is being delivered.
    Delivering,
    /// The message that there will be no frames is being delivered.
    Failing,
    /// The thread is done.
    Finished,
}

/// What a capture thread reports. The texts are those of the camera's errors.
#[derive(Debug)]
pub enum CaptureEvent {
    /// The camera was created, or not.
    Created(Result<(), String>),
    /// The stream was opened, or not.
    Opened(Result<(), String>),
    /// A frame was captured that [`decode_frame`] takes.
    Captured(RawFrame),
    /// A frame was captured and decoded by the caller, or could not be decoded.
    Decoded(Result<RgbImage, String>),
    /// No frame could be captured.
    CaptureFailed(String),
    /// The last delivery reached a receiver, or there was none any more.
    Delivered(bool),
}

/// What a capture thread has to do next.
#[derive(Debug)]
pub enum CaptureAction {
    OpenStream,
    CaptureFrame,
    Deliver(Result<FrameData, String>),
    Finish,
}

/// Whether an event can come in a phase.
pub open spec fn expected(phase: CapturePhase, event: CaptureEvent) -> bool {
    match event {
        CaptureEvent::Created(_) => phase is Creating,
        CaptureEvent::Opened(_) => phase is Opening,
        CaptureEvent::Captured(raw) => phase is Capturing && decodable(
            raw.format,
            raw.width,
            raw.height,
            raw.data@.len() as int,
        ),
        CaptureEvent::Decoded(_) => phase is Capturing,
        CaptureEvent::CaptureFailed(_) => phase is Capturing,
        CaptureEvent::Delivered(_) => phase is Delivering || phase is Failing,
    }
}

/// The phase that follows on an event.
pub open spec fn next_phase(phase: CapturePhase, event: CaptureEvent) -> CapturePhase {
    match event {
        CaptureEvent::Created(Ok(_)) => CapturePhase::Opening,
        CaptureEvent::Created(Err(_)) => CapturePhase::Failing,
        CaptureEvent::Opened(Ok(_)) => CapturePhase::Capturing,
        CaptureEvent::Opened(Err(_)) => CapturePhase::Failing,
        CaptureEvent::Captured(_) => CapturePhase::Delivering,
        CaptureEvent::Decoded(_) => CapturePhase::Delivering,
        CaptureEvent::CaptureFailed(_) => CapturePhase::Delivering,
        CaptureEvent::Delivered(reached) => if reached && phase is Delivering {
            CapturePhase::Capturing
        } else {
            CapturePhase::Finished
        },
    }
}

/// What an event gives to deliver, if anything.
pub open spec fn delivery(event: CaptureEvent) -> Option<Result<(u32, u32, Seq<u8>), Seq<char>>> {
    match event {
        CaptureEvent::Created(Err(text)) => Some(Err("Failed to create camera: "@ + text@)),
        CaptureEvent::Opened(Err(text)) => Some(Err("Failed to open stream: "@ + text@)),
        CaptureEvent::Captured(raw) => Some(
            decode_delivery(decoded(raw.format, raw.width, raw.height, raw.data@)),
        ),
        CaptureEvent::Decoded(outcome) => Some(decode_delivery(decode_outcome(outcome))),
        CaptureEvent::CaptureFailed(text) => Some(Err("Frame capture failed: "@ + text@)),
        _ => None,
    }
}

/// The decisions of a capture thread.
#[derive(Debug)]
pub struct CaptureLoop {
    pub phase: CapturePhase,
}

impl CaptureLoop {
    /// A thread that starts by creating the camera.
    pub fn new() -> (l: Self)
        ensures
            l.phase is Creating,
    {
        CaptureLoop { phase: CapturePhase::Creating }
    }

    /// Takes an event and says what to do next: what the event gives to deliver is
    /// delivered, and otherwise the new phase is entered.
    pub fn step(&mut self, event: CaptureEvent) -> (action: CaptureAction)
        requires
            expected(old(self).phase, event),
        ensures
            final(self).phase == next_phase(old(self).phase, event),
            match delivery(event) {
                Some(d) => action matches CaptureAction::Deliver(r) && delivered(r) == d,
                None => match final(self).phase {
                    CapturePhase::Opening => action is OpenStream,
                    CapturePhase::Capturing => action is CaptureFrame,
                    _ => action is Finish,
                },
            },
            event matches CaptureEvent::Captured(raw) ==> {
                let r = action->Deliver_0;
                &&& action is Deliver
                &&& r is Ok <==> raw.width > 0 && raw.height > 0 && well_sized(
                    raw.format,
                    raw.width,
                    raw.height,
                    raw.data@.len() as int,
                )
                &&& r is Ok ==> {
                    &&& r->Ok_0.width == raw.width
                    &&& r->Ok_0.height == raw.height
                    &&& r->Ok_0.pixels@ == converted(raw.format, raw.width, raw.height, raw.data@)
                }
            },
    {
        match event {
            CaptureEvent::Created(Ok(_)) => {
                self.phase = CapturePhase::Opening;
                CaptureAction::OpenStream
            },
            CaptureEvent::Created(Err(text)) => {
                self.phase = CapturePhase::Failing;
                CaptureAction::Deliver(
                    Err("Failed to create camera: ".to_owned().concat(text.as_str())),
                )
            },
            CaptureEvent::Opened(Ok(_)) => {
                self.phase = CapturePhase::Capturing;
                CaptureAction::CaptureFrame
            },
            CaptureEvent::Opened(Err(text)) => {
                self.phase = CapturePhase::Failing;
                CaptureAction::Deliver(
                    Err("Failed to open stream: ".to_owned().concat(text.as_str())),
                )
            },
            CaptureEvent::Captured(raw) => {
                self.phase = CapturePhase::Delivering;
                CaptureAction::Deliver(decode_frame(&raw))
            },
            CaptureEvent::Decoded(outcome) => {
                self.phase = CapturePhase::Delivering;
                CaptureAction::Deliver(accept_decoded(outcome))
            },
            CaptureEvent::CaptureFailed(text) => {
                self.phase = CapturePhase::Delivering;
                CaptureAction::Deliver(
                    Err("Frame capture failed: ".to_owned().concat(text.as_str())),
                )
            },
            CaptureEvent::Delivered(reached) => {
                match self.phase {
                    CapturePhase::Delivering if reached => {
                        self.phase = CapturePhase::Capturing;
                        CaptureAction::CaptureFrame
                    },
                    _ => {
                        self.phase = CapturePhase::Finished;
                        CaptureAction::Finish
                    },
                }
            },
        }
    }
}

/// The last frame among the deliveries, if there is one.
pub open spec fn last_frame(s: Seq<Result<FrameData, String>>) -> Option<FrameData>
    decreases s.len(),
{
    if s.len() == 0 {
        None
    } else {
        match s.last() {
            Ok(frame) => Some(frame),
            Err(_) => last_frame(s.drop_last()),
        }
    }
}

/// The last message among the deliveries, if there is one.
pub open spec fn last_message(s: Seq<Result<FrameData, String>>) -> Option<String>
    decreases s.len(),
{
    if s.len() == 0 {
        None
    } else {
        match s.last() {
            Ok(_) => last_message(s.drop_last()),
            Err(message) => Some(message),
        }
    }
}

/// What the waiting deliveries come to: the last message where there is one, and
/// otherwise the last frame.
pub open spec fn newest(s: Seq<Result<FrameData, String>>) -> Result<Option<FrameData>, String> {
    match last_message(s) {
        Some(message) => Err(message),
        None => Ok(last_frame(s)),
    }
}

/// Reduces the waiting deliveries to the newest.
pub fn newest_delivery(received: Vec<Result<FrameData, String>>) -> (r: Result<
    Option<FrameData>,
    String,
>)
    ensures
        r == newest(received@),
{
    let ghost all = received@;
    let mut rest = received;
    let mut latest_frame: Option<FrameData> = None;
    loop
        invariant
            all == received@,
            last_message(all) == last_message(rest@),
            last_frame(all) == match latest_frame {
                Some(frame) => Some(frame),
                None => last_frame(rest@),
            },
        ensures
            rest@.len() == 0,
            last_message(all) is None,
            last_frame(all) == latest_frame,
        decreases rest@.len(),
    {
        match rest.pop() {
            None => {
                break;
            },
            Some(Err(message)) => {
                return Err(message);
            },
            Some(Ok(frame)) => {
                if latest_frame.is_none() {
                    latest_frame = Some(frame);
                }
            },
        }
    }
    Ok(latest_frame)
}

/// A camera as the system lists it.
#[derive(Debug)]
pub struct DeviceInfo {
    pub name: String,
    pub index: CameraIndex,
}

/// The answer to a request for a frame.
#[derive(Debug)]
pub enum FrameReply {
    /// The camera was not streaming: a capture thread has to be started on the device,
    /// and then the request made again.
    Start(CameraIndex),
    /// The newest frame, if one has come since the last request.
    Frame(Option<FrameData>),
}

/// A capture thread that could not create its camera or open its stream delivers the
/// message and ends, whether or not the message was received.
pub proof fn law_failing_thread_ends(event: CaptureEvent)
    requires
        expected(CapturePhase::Failing, event),
    ensures
        next_phase(CapturePhase::Failing, event) is Finished,
        delivery(event) is None,
{
}

/// A capture thread that has ended expects no event.
pub proof fn law_finished_thread_stays_finished(event: CaptureEvent)
    ensures
        !expected(CapturePhase::Finished, event),
{
}

/// While there is a receiver, a capturing thread goes on capturing after every delivery,
/// be it a frame or a message; it ends as soon as there is none.
pub proof fn law_capture_goes_on(captured: CaptureEvent, reached: bool)
    requires
        expected(CapturePhase::Capturing, captured),
    ensures
        delivery(captured) is Some,
        next_phase(
            next_phase(CapturePhase::Capturing, captured),
            CaptureEvent::Delivered(reached),
        ) == if reached {
            CapturePhase::Capturing
        } else {
            CapturePhase::Finished
        },
{
}

/// Every frame that is delivered has pixels.
pub proof fn law_delivered_frames_have_pixels(phase: CapturePhase, event: CaptureEvent)
    requires
        expected(phase, event),
        delivery(event) matches Some(d) && d is Ok,
    ensures
        delivery(event)->0->Ok_0.0 > 0,
        delivery(event)->0->Ok_0.1 > 0,
{
}

/// Only the newest delivery of each kind counts: what was delivered before a frame or a
/// message of the same kind is never seen.
pub proof fn law_older_deliveries_are_dropped(
    older: Seq<Result<FrameData, String>>,
    newer: Result<FrameData, String>,
)
    ensures
        newer is Err ==> newest(older.push(newer)) == Err::<Option<FrameData>, String>(newer->Err_0),
        newer is Ok && newest(older) is Ok ==> newest(older.push(newer)) == Ok::<
            Option<FrameData>,
            String,
        >(Some(newer->Ok_0)),
        newer is Ok && newest(older) is Err ==> newest(older.push(newer)) == newest(older),
{
    assert(older.push(newer).drop_last() =~= older);
}

/// A picture that was decoded is delivered whole, with its own width, its own height and all
/// its bytes. One without pixels is answered by a message with its resolution.
pub proof fn law_decoded_picture_is_delivered_whole(image: RgbImage, r: Result<FrameData, String>)
    requires
        delivery(CaptureEvent::Decoded(Ok(image))) == Some(delivered(r)),
    ensures
        image.width > 0 && image.height > 0 ==> {
            &&& r is Ok
            &&& r->Ok_0.width == image.width
            &&& r->Ok_0.height == image.height
            &&& r->Ok_0.pixels@ == image.pixels@
        },
        image.width == 0 || image.height == 0 ==> {
            &&& r is Err
            &&& r->Err_0@ == "Invalid resolution: "@ + crate::text::decimal(image.width as nat)
                + "x"@ + crate::text::decimal(image.height as nat)
        },
{
}

/// An image is taken as it is, and so is the outcome of decoding: nothing of a picture with
/// pixels is changed, and the text of an error is handed on.
pub proof fn law_images_are_taken_as_they_are(
    outcome: Result<RgbImage, String>,
    r: Result<FrameData, String>,
)
    requires
        delivered(r) == decode_delivery(decode_outcome(outcome)) || (outcome is Ok && delivered(r)
            == accepted(outcome->Ok_0.width, outcome->Ok_0.height, outcome->Ok_0.pixels@)),
    ensures
        outcome is Err ==> r is Err && r->Err_0@ == "Frame decode failed: "@ + outcome->Err_0@,
        outcome is Ok && outcome->Ok_0.width > 0 && outcome->Ok_0.height > 0 ==> {
            &&& r is Ok
            &&& r->Ok_0.width == outcome->Ok_0.width
            &&& r->Ok_0.height == outcome->Ok_0.height
            &&& r->Ok_0.pixels@ == outcome->Ok_0.pixels@
        },
        outcome is Ok && (outcome->Ok_0.width == 0 || outcome->Ok_0.height == 0) ==> {
            &&& r is Err
            &&& r->Err_0@ == "Invalid resolution: "@ + crate::text::decimal(
                outcome->Ok_0.width as nat,
            ) + "x"@ + crate::text::decimal(outcome->Ok_0.height as nat)
        },
{
}

/// A captured frame is delivered as it was decoded, and as a frame the caller decoded would
/// be: with the width, the height and the bytes of the picture, or the text of the error.
pub proof fn law_captured_frame_is_delivered_as_decoded(raw: RawFrame, r: Result<FrameData, String>)
    requires
        delivery(CaptureEvent::Captured(raw)) == Some(delivered(r)),
    ensures
        ({
            let outcome = decoded(raw.format, raw.width, raw.height, raw.data@);
            &&& outcome is Err ==> r is Err && r->Err_0@ == "Frame decode failed: "@
                + outcome->Err_0
            &&& outcome is Ok && outcome->Ok_0.0 > 0 && outcome->Ok_0.1 > 0 ==> {
                &&& r is Ok
                &&& r->Ok_0.width == outcome->Ok_0.0
                &&& r->Ok_0.height == outcome->Ok_0.1
                &&& r->Ok_0.pixels@ == outcome->Ok_0.2
            }
            &&& outcome is Ok && (outcome->Ok_0.0 == 0 || outcome->Ok_0.1 == 0) ==> r is Err
        }),
{
}

/// What goes wrong with a camera is delivered as a message that says what it was, followed by
/// the text of the error.
pub proof fn law_failures_are_delivered(
    event: CaptureEvent,
    text: String,
    r: Result<FrameData, String>,
)
    requires
        delivery(event) == Some(delivered(r)),
    ensures
        event == CaptureEvent::Created(Err(text)) ==> r is Err && r->Err_0@
            == "Failed to create camera: "@ + text@,
        event == CaptureEvent::Opened(Err(text)) ==> r is Err && r->Err_0@
            == "Failed to open stream: "@ + text@,
        event == CaptureEvent::CaptureFailed(text) ==> r is Err && r->Err_0@
            == "Frame capture failed: "@ + text@,
        event == CaptureEvent::Decoded(Err(text)) ==> r is Err && r->Err_0@
            == "Frame decode failed: "@ + text@,
{
}

/// A thread that has its camera opens the stream, and one that has its stream captures;
/// neither delivers anything on the way. Without camera or stream it fails.
pub proof fn law_capture_begins_in_order(created: Result<(), String>, opened: Result<(), String>)
    ensures
        expected(CapturePhase::Creating, CaptureEvent::Created(created)),
        next_phase(CapturePhase::Creating, CaptureEvent::Created(created)) == if created is Ok {
            CapturePhase::Opening
        } else {
            CapturePhase::Failing
        },
        delivery(CaptureEvent::Created(created)) is None <==> created is Ok,
        expected(CapturePhase::Opening, CaptureEvent::Opened(opened)),
        next_phase(CapturePhase::Opening, CaptureEvent::Opened(opened)) == if opened is Ok {
            CapturePhase::Capturing
        } else {
            CapturePhase::Failing
        },
        delivery(CaptureEvent::Opened(opened)) is None <==> opened is Ok,
{
}

/// Where nothing but frames waits, the last of them is the newest, be there one or many.
pub proof fn law_newest_is_the_last_frame(s: Seq<Result<FrameData, String>>)
    requires
        forall|i: int| 0 <= i < s.len() ==> #[trigger] s[i] is Ok,
    ensures
        s.len() == 0 ==> newest(s) == Ok::<Option<FrameData>, String>(None),
        s.len() > 0 ==> newest(s) == Ok::<Option<FrameData>, String>(
            Some(s[s.len() - 1]->Ok_0),
        ),
    decreases s.len(),
{
    if s.len() > 0 {
        assert forall|i: int| 0 <= i < s.drop_last().len() implies #[trigger] s.drop_last()[i] is Ok
            by {
            assert(s[i] is Ok);
        }
        assert(s[s.len() - 1] is Ok);
        law_newest_is_the_last_frame(s.drop_last());
    }
}

/// Where messages wait, the last of them is answered, whatever frames wait before or behind
/// it.
pub proof fn law_last_message_wins(s: Seq<Result<FrameData, String>>, j: int)
    requires
        0 <= j < s.len(),
        s[j] is Err,
        forall|i: int| j < i < s.len() ==> #[trigger] s[i] is Ok,
    ensures
        newest(s) == Err::<Option<FrameData>, String>(s[j]->Err_0),
    decreases s.len(),
{
    if j < s.len() - 1 {
        assert(s[s.len() - 1] is Ok);
        assert forall|i: int| j < i < s.drop_last().len() implies #[trigger] s.drop_last()[i] is Ok
            by {
            assert(s[i] is Ok);
        }
        law_last_message_wins(s.drop_last(), j);
    }
}

/// The pixels of a frame in red, green, blue are its bytes; those of one in blue, green, red
/// have them the other way round, and zero for an incomplete pixel at the end; and those of a
/// grey one have its byte in every channel.
pub proof fn law_plain_formats_keep_their_pixels(
    width: u32,
    height: u32,
    data: Seq<u8>,
    pixel: int,
    channel: int,
)
    requires
        0 <= pixel,
        0 <= channel < 3,
    ensures
        converted(FrameFormat::RawRgb, width, height, data) == data,
        converted(FrameFormat::RawBgr, width, height, data).len() == data.len(),
        data.len() / 3 <= pixel && pixel * 3 + channel < data.len() ==> converted(
            FrameFormat::RawBgr,
            width,
            height,
            data,
        )[pixel * 3 + channel] == 0,
        pixel * 3 + 2 < data.len() ==> converted(
            FrameFormat::RawBgr,
            width,
            height,
            data,
        )[pixel * 3 + channel] == data[pixel * 3 + 2 - channel],
        converted(FrameFormat::Gray, width, height, data).len() == 3 * data.len(),
        pixel < data.len() ==> converted(
            FrameFormat::Gray,
            width,
            height,
            data,
        )[pixel * 3 + channel] == data[pixel],
{
}

/// Whether a byte is the 256th part of a number, rounded down, or the nearest byte to it.
pub open spec fn is_part(byte: u8, t: int) -> bool {
    &&& t < 0 ==> byte == 0
    &&& t >= 65536 ==> byte == 255
    &&& 0 <= t < 65536 ==> 256 * byte <= t < 256 * byte + 256
}

/// The bytes of a pixel are its parts of red, green and blue.
#[verifier::spinoff_prover]
proof fn lemma_yuv_parts(y: u8, u: u8, v: u8)
    ensures
        is_part(yuv_rgb(y, u, v)[0], 298 * (y - 16) + 409 * (v - 128) + 128),
        is_part(yuv_rgb(y, u, v)[1], 298 * (y - 16) - 100 * (u - 128) - 208 * (v - 128) + 128),
        is_part(yuv_rgb(y, u, v)[2], 298 * (y - 16) + 516 * (u - 128) + 128),
{
    lemma_part(298 * (y - 16) + 409 * (v - 128) + 128);
    lemma_part(298 * (y - 16) - 100 * (u - 128) - 208 * (v - 128) + 128);
    lemma_part(298 * (y - 16) + 516 * (u - 128) + 128);
}

/// Rounding down and taking the nearest byte gives the part of a number.
proof fn lemma_part(t: int)
    ensures
        is_part(clamped(t / 256), t),
{
}

/// The two pixels of four packed bytes take their brightness from the first and the third,
/// and share the other two as their colour.
#[verifier::spinoff_prover]
pub proof fn law_packed_pixels(
    width: u32,
    height: u32,
    data: Seq<u8>,
    group: int,
    second: bool,
)
    requires
        0 <= group,
        group * 4 + 3 < data.len(),
    ensures
        ({
            let rgb = converted(FrameFormat::Yuyv, width, height, data);
            let first = group * 6 + if second { 3int } else { 0int };
            let y = data[group * 4 + if second { 2int } else { 0int }];
            let u = data[group * 4 + 1];
            let v = data[group * 4 + 3];
            &&& rgb.len() == data.len() / 4 * 6
            &&& is_part(rgb[first], 298 * (y - 16) + 409 * (v - 128) + 128)
            &&& is_part(rgb[first + 1], 298 * (y - 16) - 100 * (u - 128) - 208 * (v - 128) + 128)
            &&& is_part(rgb[first + 2], 298 * (y - 16) + 516 * (u - 128) + 128)
        }),
{
    let first = group * 6 + if second { 3int } else { 0int };
    let y = data[group * 4 + if second { 2int } else { 0int }];
    let rgb = converted(FrameFormat::Yuyv, width, height, data);
    let pixel = yuv_rgb(y, data[group * 4 + 1], data[group * 4 + 3]);
    assert forall|c: int| 0 <= c < 3 implies (first + c) / 6 == group && (first + c) % 6 / 3 * 2
        == (if second { 2int } else { 0int }) && #[trigger] ((first + c) % 3) == c by {}
    assert((first + 0) % 3 == 0 && (first + 1) % 3 == 1 && (first + 2) % 3 == 2);
    assert(rgb[first] == pixel[0] && rgb[first + 1] == pixel[1] && rgb[first + 2] == pixel[2]);
    lemma_yuv_parts(y, data[group * 4 + 1], data[group * 4 + 3]);
}

/// The pixel at `(x, y)` of a planar frame takes its brightness from its own byte, and its
/// colour from the pair of bytes of the two by two pixels that it is one of.
#[verifier::spinoff_prover]
pub proof fn law_planar_pixels(width: u32, height: u32, data: Seq<u8>, x: int, y: int)
    requires
        0 <= x < width,
        0 <= y < height,
        width % 2 == 0,
        height % 2 == 0,
        data.len() == width * height * 3 / 2,
    ensures
        ({
            let rgb = converted(FrameFormat::Nv12, width, height, data);
            let pixel = y * width + x;
            let pair = width * height + (y / 2) * width + (x / 2) * 2;
            let luma = data[pixel];
            let u = data[pair];
            let v = data[pair + 1];
            &&& rgb.len() == width * height * 3
            &&& is_part(rgb[pixel * 3], 298 * (luma - 16) + 409 * (v - 128) + 128)
            &&& is_part(
                rgb[pixel * 3 + 1],
                298 * (luma - 16) - 100 * (u - 128) - 208 * (v - 128) + 128,
            )
            &&& is_part(rgb[pixel * 3 + 2], 298 * (luma - 16) + 516 * (u - 128) + 128)
        }),
{
    let w = width as int;
    let h = height as int;
    let pixel = y * w + x;
    assert(0 <= pixel < w * h) by (nonlinear_arith)
        requires
            pixel == y * w + x,
            0 <= x < w,
            0 <= y,
            y + 1 <= h,
    ;
    vstd::arithmetic::div_mod::lemma_fundamental_div_mod_converse(pixel, w, y, x);
    assert((pixel * 3) / 3 == pixel && (pixel * 3 + 1) / 3 == pixel && (pixel * 3 + 2) / 3 == pixel);
    assert((pixel * 3) % 3 == 0 && (pixel * 3 + 1) % 3 == 1 && (pixel * 3 + 2) % 3 == 2);
    let pair = w * h + (y / 2) * w + (x / 2) * 2;
    let rgb = converted(FrameFormat::Nv12, width, height, data);
    let parts = yuv_rgb(data[pixel], data[pair], data[pair + 1]);
    assert(rgb[pixel * 3] == parts[0] && rgb[pixel * 3 + 1] == parts[1] && rgb[pixel * 3 + 2]
        == parts[2]);
    lemma_yuv_parts(data[pixel], data[pair], data[pair + 1]);
}

/// A frame that has the bytes that its resolution asks for gives a byte for each channel of
/// each pixel, and one that has fewer is not taken for such a frame.
#[verifier::spinoff_prover]
pub proof fn law_well_sized_frames_fill_the_picture(
    format: FrameFormat,
    width: u32,
    height: u32,
    data: Seq<u8>,
)
    requires
        format !is Mjpeg,
    ensures
        well_sized(format, width, height, data.len() as int) ==> width * height * 3 <= converted(
            format,
            width,
            height,
            data,
        ).len(),
        format !is Nv12 && width * 3 <= usize::MAX && (format is Yuyv ==> data.len() % 4 == 0)
            && width * height * 3 <= converted(format, width, height, data).len() ==> well_sized(
            format,
            width,
            height,
            data.len() as int,
        ),
        format is Nv12 ==> (well_sized(format, width, height, data.len() as int) <==> width % 2 == 0
            && height % 2 == 0 && 2 * data.len() == width * height * 3),
{
    let n = width * height;
    let len = data.len() as int;
    assert(0 <= n) by (nonlinear_arith)
        requires
            n == width * height,
    ;
    match format {
        FrameFormat::Nv12 => {
            assert(converted(format, width, height, data).len() == n * 3);
            if width % 2 == 0 {
                lemma_even_product(width as int, height as int);
                assert(len == n * 3 / 2 <==> 2 * len == n * 3);
            }
        },
        FrameFormat::Yuyv => {
            assert(converted(format, width, height, data).len() == len / 4 * 6);
        },
        FrameFormat::Gray => {
            assert(converted(format, width, height, data).len() == len * 3);
        },
        _ => {
            assert(converted(format, width, height, data).len() == len);
        },
    }
}

/// A product with an even factor is even.
proof fn lemma_even_product(a: int, b: int)
    requires
        a % 2 == 0,
    ensures
        (a * b) % 2 == 0,
{
    let h = a / 2;
    assert(a * b == 2 * (h * b)) by (nonlinear_arith)
        requires
            a == 2 * h,
    ;
}

} // verus!
