//! Recording.
//!
//! [`RecorderManager`] keeps what is to be recorded and what is being recorded. A session
//! has two threads, driven from outside: one encodes, with [`FrameEncoder`] and on the
//! decisions of [`EncoderLoop`], and one writes, on the decisions of [`WriterLoop`].

use crate::targets::{RecordConfigs, TargetSet};
use crate::text::{decimal_text, join3};
use crate::yuv::to_yuv;
use openh264::encoder::Encoder;
use openh264::formats::YUVBuffer;
use std::path::PathBuf;
use std::sync::Arc;
use vstd::prelude::*;
use vstd::string::*;

pub use crate::capture::FrameData;

verus! {

/// Number of frames that may wait for a session's encoder.
pub const FRAME_QUEUE_LEN: usize = 5;

/// Number of encoded frames that may wait for a session's writer.
pub const WRITE_QUEUE_LEN: usize = 30;

/// A path of the file system, from `std`, which is carried along and never looked into.
#[verifier::external_type_specification]
#[verifier::external_body]
pub struct ExPathBuf(std::path::PathBuf);

/// The encoder of `openh264`, with all it remembers of the frames it has encoded.
#[verifier::external_type_specification]
#[verifier::external_body]
pub struct ExEncoder(openh264::encoder::Encoder);

/// What can be recorded.
#[derive(Debug, Clone, Copy, PartialEq, Eq, Structural, Hash)]
pub enum RecordingTarget {
    Input(usize),
    Preview,
    Program,
}

impl RecordingTarget {
    /// The name of the target; inputs are counted from one.
    pub open spec fn label(self) -> Seq<char> {
        match self {
            RecordingTarget::Input(idx) => "Input_"@ + crate::text::decimal((idx + 1) as nat),
            RecordingTarget::Preview => "Preview"@,
            RecordingTarget::Program => "Program"@,
        }
    }

    /// The name of the target; inputs are counted from one.
    pub fn name(&self) -> (s: String)
        ensures
            s@ == self.label(),
    {
        match self {
            RecordingTarget::Input(idx) => "Input_".to_owned().concat(
                decimal_text(*idx as u128 + 1).as_str(),
            ),
            RecordingTarget::Preview => "Preview".to_owned(),
            RecordingTarget::Program => "Program".to_owned(),
        }
    }

    /// The number under which the target is kept.
    pub open spec fn key(self) -> u128 {
        match self {
            RecordingTarget::Preview => 0,
            RecordingTarget::Program => 1,
            RecordingTarget::Input(idx) => (idx + 2) as u128,
        }
    }

    /// The target that is kept under a number.
    pub open spec fn of_key(key: u128) -> Self {
        if key == 0 {
            RecordingTarget::Preview
        } else if key == 1 {
            RecordingTarget::Program
        } else {
            RecordingTarget::Input((key - 2) as usize)
        }
    }

    /// The number under which the target is kept.
    pub(crate) fn to_key(&self) -> (key: u128)
        ensures
            key == self.key(),
    {
        match self {
            RecordingTarget::Preview => 0,
            RecordingTarget::Program => 1,
            RecordingTarget::Input(idx) => *idx as u128 + 2,
        }
    }

    /// The target that is kept under a number.
    pub(crate) fn from_key(key: u128) -> (target: Self)
        requires
            key <= usize::MAX + 2,
        ensures
            target == RecordingTarget::of_key(key),
            target.key() == key,
    {
        if key == 0 {
            RecordingTarget::Preview
        } else if key == 1 {
            RecordingTarget::Program
        } else {
            RecordingTarget::Input((key - 2) as usize)
        }
    }
}

/// The format of the time in the name of a recording.
pub const STAMP_FORMAT: &'static str = "%Y%m%d_%H%M%S";

/// Whether a character is a decimal digit.
pub open spec fn is_digit(c: char) -> bool {
    '0' <= c <= '9'
}

/// The number that the two digits from `i` on stand for.
pub open spec fn two_digits(s: Seq<char>, i: int) -> int {
    (s[i] as int - '0' as int) * 10 + (s[i + 1] as int - '0' as int)
}

/// Whether `s` has the form of a time: year, month and day, an underscore, and hours,
/// minutes and seconds, two digits each but for the year, which has four, or at least four
/// and a sign before them where it lies outside the years 0 to 9999. A minute may have a
/// leap second.
pub open spec fn is_stamp(s: Seq<char>) -> bool {
    let n = s.len() as int;
    &&& n >= 15
    &&& forall|i: int| 1 <= i < n && i != n - 7 ==> is_digit(#[trigger] s[i])
    &&& if n == 15 {
        is_digit(s[0])
    } else {
        s[0] == '+' || s[0] == '-'
    }
    &&& 1 <= two_digits(s, n - 11) <= 12
    &&& 1 <= two_digits(s, n - 9) <= 31
    &&& s[n - 7] == '_'
    &&& 0 <= two_digits(s, n - 6) <= 23
    &&& 0 <= two_digits(s, n - 4) <= 59
    &&& 0 <= two_digits(s, n - 2) <= 60
}

/// The local time, from `chrono`'s `Local::now`, in the given format, with
/// `DateTime::format`. The text depends on the clock and the time zone of the machine;
/// what is claimed of it is its form and the range of each of its parts.
#[verifier::external_body]
fn local_time(format: &str) -> (s: String)
    requires
        format@ == STAMP_FORMAT@,
    ensures
        is_stamp(s@),
{
    chrono::Local::now().format(format).to_string()
}

/// The name of the file that a recording of `target` begun at `stamp` is written to.
pub open spec fn file_name(stamp: Seq<char>, target: RecordingTarget) -> Seq<char> {
    stamp + "_"@ + target.label() + ".h264"@
}

/// The name of the file that a recording of `target` begun at `stamp` is written to.
pub fn recording_file_name(stamp: &str, target: RecordingTarget) -> (s: String)
    ensures
        s@ == file_name(stamp@, target),
{
    let mut s: String = join3(stamp, "_", target.name().as_str());
    s.append(".h264");
    s
}

/// Whether `name` is the name of the file of a recording of `target` begun at some time.
pub open spec fn is_dated_name(name: Seq<char>, target: RecordingTarget) -> bool {
    exists|stamp: Seq<char>| #[trigger] is_stamp(stamp) && name == file_name(stamp, target)
}

/// A recording that has to be started.
#[derive(Debug)]
pub struct RecordingStart {
    pub target: RecordingTarget,
    pub file_name: String,
}

/// Whether a recording of a target is among the starts.
pub open spec fn started(starts: Seq<RecordingStart>, target: RecordingTarget) -> bool {
    exists|i: int| 0 <= i < starts.len() && (#[trigger] starts[i]).target == target
}

/// Whether a target is to be recorded and is not among those that are being recorded.
pub open spec fn startable(
    configs: Map<RecordingTarget, bool>,
    sessions: Set<RecordingTarget>,
    target: RecordingTarget,
) -> bool {
    &&& configs.contains_key(target)
    &&& configs[target]
    &&& !sessions.contains(target)
}

/// The targets that are being recorded once all that are to be recorded were started.
pub open spec fn after_start(
    configs: Map<RecordingTarget, bool>,
    sessions: Set<RecordingTarget>,
) -> Set<RecordingTarget> {
    sessions.union(Set::new(|t: RecordingTarget| startable(configs, sessions, t)))
}

/// Keeps what is to be recorded and what is being recorded.
pub struct RecorderManager {
    /// The targets that are being recorded.
    pub sessions: TargetSet,
    /// The directory that recordings are written to.
    pub save_dir: PathBuf,
    /// Whether the settings are shown.
    pub show_settings: bool,
    /// Whether a target is to be recorded, for each target for which this was set.
    pub record_configs: RecordConfigs,
}

impl RecorderManager {
    /// Both collections hold nothing but targets.
    pub open spec fn wf(&self) -> bool {
        &&& self.sessions.wf()
        &&& self.record_configs.wf()
    }

    /// Whether a target is to be recorded and is not being recorded.
    pub open spec fn to_start(&self, target: RecordingTarget) -> bool {
        startable(self.record_configs@, self.sessions@, target)
    }

    /// Makes a manager that records nothing yet, into the given directory.
    pub fn new(save_dir: PathBuf) -> (m: Self)
        ensures
            m.wf(),
            m.sessions@ == Set::<RecordingTarget>::empty(),
            m.record_configs@ == Map::<RecordingTarget, bool>::empty(),
            m.save_dir == save_dir,
            !m.show_settings,
    {
        RecorderManager {
            sessions: TargetSet::new(),
            save_dir,
            show_settings: false,
            record_configs: RecordConfigs::new(),
        }
    }

    /// Whether anything is being recorded.
    pub fn is_recording(&self) -> (b: bool)
        requires
            self.wf(),
        ensures
            b == !self.sessions@.is_empty(),
    {
        !self.sessions.is_empty()
    }

    /// Whether a target is being recorded.
    pub fn is_recording_target(&self, target: &RecordingTarget) -> (b: bool)
        ensures
            b == self.sessions@.contains(*target),
    {
        self.sessions.contains(target)
    }

    /// Starts recording the targets that are to be recorded and are not yet, in no
    /// particular order. For each the name of its file is returned, made of the time at
    /// which it was started; the threads of the session have to be started on it.
    pub fn start_selected(&mut self) -> (starts: Vec<RecordingStart>)
        requires
            old(self).wf(),
        ensures
            final(self).wf(),
            final(self).record_configs == old(self).record_configs,
            final(self).save_dir == old(self).save_dir,
            final(self).show_settings == old(self).show_settings,
            final(self).sessions@ == after_start(old(self).record_configs@, old(self).sessions@),
            forall|i: int|
                0 <= i < starts@.len() ==> old(self).to_start((#[trigger] starts@[i]).target),
            forall|i: int, j: int|
                0 <= i < j < starts@.len() ==> (#[trigger] starts@[i]).target != (
                #[trigger] starts@[j]).target,
            forall|t: RecordingTarget| #[trigger]
                old(self).to_start(t) ==> started(starts@, t),
            forall|i: int|
                0 <= i < starts@.len() ==> is_dated_name(
                    (#[trigger] starts@[i]).file_name@,
                    starts@[i].target,
                ),
    {
        let targets: Vec<RecordingTarget> = self.record_configs.targets();
        let mut starts: Vec<RecordingStart> = Vec::new();
        let n: usize = targets.len();
        let mut i: usize = 0;
        while i < n
            invariant
                i <= n,
                n == targets@.len(),
                self.wf(),
                targets@.no_duplicates(),
                self.record_configs == old(self).record_configs,
                self.save_dir == old(self).save_dir,
                self.show_settings == old(self).show_settings,
                forall|t: RecordingTarget| #[trigger]
                    self.sessions@.contains(t) <==> old(self).sessions@.contains(t) || started(
                        starts@,
                        t,
                    ),
                forall|j: int|
                    0 <= j < starts@.len() ==> {
                        &&& old(self).to_start((#[trigger] starts@[j]).target)
                        &&& targets@.take(i as int).contains(starts@[j].target)
                        &&& is_dated_name(starts@[j].file_name@, starts@[j].target)
                    },
                forall|j: int, k: int|
                    0 <= j < k < starts@.len() ==> (#[trigger] starts@[j]).target != (
                    #[trigger] starts@[k]).target,
                forall|j: int|
                    0 <= j < i && old(self).to_start(#[trigger] targets@[j]) ==> started(
                        starts@,
                        targets@[j],
                    ),
            decreases n - i,
        {
            let target = targets[i];
            let ghost before = starts@;
            let enabled: bool = match self.record_configs.get(&target) {
                Some(enabled) => *enabled,
                None => false,
            };
            assert(!started(before, target)) by {
                assert forall|j: int| 0 <= j < before.len() implies (#[trigger] before[j]).target
                    != target by {
                    let k = choose|k: int|
                        0 <= k < i && targets@.take(i as int)[k] == before[j].target;
                    assert(targets@[k] == before[j].target);
                }
            }
            if enabled && !self.sessions.contains(&target) {
                let stamp = local_time(STAMP_FORMAT);
                self.sessions.insert(target);
                starts.push(
                    RecordingStart {
                        target,
                        file_name: recording_file_name(stamp.as_str(), target),
                    },
                );
            }
            proof {
                assert forall|t: RecordingTarget| #[trigger] started(starts@, t) <==> started(
                    before,
                    t,
                ) || (starts@.len() > before.len() && t == target) by {
                    if started(before, t) {
                        let j = choose|j: int|
                            0 <= j < before.len() && (#[trigger] before[j]).target == t;
                        assert(starts@[j].target == t);
                    }
                    if starts@.len() > before.len() {
                        assert(starts@[before.len() as int].target == target);
                    }
                    if started(starts@, t) {
                        let j = choose|j: int|
                            0 <= j < starts@.len() && (#[trigger] starts@[j]).target == t;
                        if j < before.len() {
                            assert(before[j].target == t);
                        }
                    }
                }
                assert forall|j: int| 0 <= j < starts@.len() implies targets@.take(i + 1).contains(
                    (#[trigger] starts@[j]).target,
                ) by {
                    if j < before.len() {
                        let k = choose|k: int|
                            0 <= k < i && targets@.take(i as int)[k] == before[j].target;
                        assert(targets@.take(i + 1)[k] == before[j].target);
                    } else {
                        assert(targets@.take(i + 1)[i as int] == target);
                    }
                }
            }
            i = i + 1;
        }
        proof {
            assert forall|t: RecordingTarget| #[trigger] old(self).to_start(t) implies started(
                starts@,
                t,
            ) by {
                assert(targets@.contains(t));
                let j = choose|j: int| 0 <= j < targets@.len() && targets@[j] == t;
                assert(started(starts@, targets@[j]));
            }
            assert forall|t: RecordingTarget| #[trigger]
                self.sessions@.contains(t) <==> after_start(
                    old(self).record_configs@,
                    old(self).sessions@,
                ).contains(t) by {
                assert(old(self).to_start(t) ==> started(starts@, t));
                if started(starts@, t) {
                    let j = choose|j: int|
                        0 <= j < starts@.len() && (#[trigger] starts@[j]).target == t;
                    assert(old(self).to_start(starts@[j].target));
                }
            }
            assert(self.sessions@ =~= after_start(old(self).record_configs@, old(self).sessions@));
        }
        starts
    }

    /// Stops all recordings. The targets are returned, in no particular order; the input
    /// of all their sessions has to be closed, and then their threads waited for.
    pub fn stop_all(&mut self) -> (stopped: Vec<RecordingTarget>)
        requires
            old(self).wf(),
        ensures
            final(self).wf(),
            final(self).record_configs == old(self).record_configs,
            final(self).save_dir == old(self).save_dir,
            final(self).show_settings == old(self).show_settings,
            final(self).sessions@ == Set::<RecordingTarget>::empty(),
            stopped@.no_duplicates(),
            forall|t: RecordingTarget| #[trigger]
                stopped@.contains(t) <==> old(self).sessions@.contains(t),
    {
        self.sessions.take_all()
    }

    /// Says what is to be done with a frame of a target: where the target is being
    /// recorded, the frame is returned to be queued for its session.
    pub fn dispatch_frame(&self, target: RecordingTarget, frame: Arc<FrameData>) -> (queued: Option<
        Arc<FrameData>,
    >)
        ensures
            queued == if self.sessions@.contains(target) {
                Some(frame)
            } else {
                None
            },
    {
        if self.sessions.contains(&target) {
            Some(frame)
        } else {
            None
        }
    }
}

/// The pictures that an encoder has been given, in order: the bytes of their planes, their
/// width and their height.
pub uninterp spec fn encoder_input(encoder: Encoder) -> Seq<(Seq<u8>, usize, usize)>;

/// What an encoder has returned for each of those pictures: the bytes of the stream, or
/// `None` where the picture was refused.
pub uninterp spec fn encoder_output(encoder: Encoder) -> Seq<Option<Seq<u8>>>;

/// Makes an encoder with `openh264`'s `Encoder::new`, which has been given no picture yet
/// and has returned nothing.
/// It may fail, for reasons that its documentation does not give; the error is returned in
/// its debug notation.
#[verifier::external_body]
fn new_encoder() -> (r: Result<Encoder, String>)
    ensures
        r matches Ok(encoder) ==> {
            &&& encoder_input(encoder) == Seq::<(Seq<u8>, usize, usize)>::empty()
            &&& encoder_output(encoder) == Seq::<Option<Seq<u8>>>::empty()
        },
{
    Encoder::new().map_err(|e| format!("{:?}", e))
}

/// Whether a picture is larger than the encoder can take, which is 3840 by 2160 or 2160 by
/// 3840. The encoder counts in 32 bits with a sign; of larger sides nothing is said.
pub open spec fn too_large(width: int, height: int) -> bool {
    &&& width <= i32::MAX
    &&& height <= i32::MAX
    &&& width > 3840 || height > 3840 || (width > 2160 && height > 2160)
}

/// Encodes a picture with `openh264`'s `Encoder::encode`, and collects the bytes of the
/// stream with `EncodedBitStream::write_vec`; `None` is an error of the encoder. The
/// planes are handed over with `YUVBuffer::from_vec`, which asks for even sides and for
/// three bytes to two pixels. The encoder has then been given this picture after all those
/// before, and has returned this outcome after all those before. A picture that is
/// [`too_large`] is refused; others may be refused too, for reasons that the documentation
/// does not give. Nothing is claimed of the bytes themselves: the encoder picks its routines
/// by the processor it runs on, and does not promise the same bytes on every machine.
#[verifier::external_body]
fn encode_yuv(encoder: &mut Encoder, yuv: Vec<u8>, width: usize, height: usize) -> (bits: Option<
    Vec<u8>,
>)
    requires
        width % 2 == 0,
        height % 2 == 0,
        3 * (width * height) <= usize::MAX,
        yuv@.len() == 3 * (width * height) / 2,
    ensures
        encoder_input(*final(encoder)) == encoder_input(*old(encoder)).push((yuv@, width, height)),
        encoder_output(*final(encoder)) == encoder_output(*old(encoder)).push(
            match bits {
                Some(bytes) => Some(bytes@),
                None => None,
            },
        ),
        too_large(width as int, height as int) ==> bits is None,
{
    let mut bits = Vec::new();
    let picture = YUVBuffer::from_vec(yuv, width, height);
    encoder.encode(&picture).ok()?.write_vec(&mut bits);
    Some(bits)
}

/// What became of a frame that was handed to the encoder.
#[derive(Debug)]
pub enum EncodeOutcome {
    /// There is no encoder, and so no recording; the text is that of the error.
    NoEncoder(String),
    /// The frame could not be encoded and is left out.
    Skipped,
    /// The bytes of the stream for the frame.
    Encoded(Vec<u8>),
}

/// Takes what the encoder returned for a frame: the bytes of the stream, or `None` where the
/// frame could not be encoded.
pub fn encode_outcome(bits: Option<Vec<u8>>) -> (outcome: EncodeOutcome)
    ensures
        outcome == match bits {
            Some(bytes) => EncodeOutcome::Encoded(bytes),
            None => EncodeOutcome::Skipped,
        },
{
    match bits {
        Some(bytes) => EncodeOutcome::Encoded(bytes),
        None => EncodeOutcome::Skipped,
    }
}

/// Whether a picture of this size can be encoded: its sides are even, it has a column, and
/// three times the number of its pixels can be counted, so that its planes, which take half
/// of that, fit into memory.
pub open spec fn encodable(width: u32, height: u32) -> bool {
    &&& width % 2 == 0
    &&& height % 2 == 0
    &&& width >= 2
    &&& 3 * (width * height) <= usize::MAX
}

/// The encoder of a session. The size of the recording is that of its first frame. A
/// later frame is read at the places of the recording's pixels, counted by its own width:
/// where it is narrower, its rows run on into the next, and what lies behind its end is zero.
pub struct FrameEncoder {
    encoder: Option<Encoder>,
    target_width: u32,
    target_height: u32,
}

impl FrameEncoder {
    /// Whether the first frame has come.
    pub closed spec fn running(&self) -> bool {
        self.encoder is Some
    }

    /// The size of the recording.
    pub closed spec fn target(&self) -> (u32, u32) {
        (self.target_width, self.target_height)
    }

    /// The pictures that have been handed to the outside encoder.
    pub closed spec fn pictures(&self) -> Seq<(Seq<u8>, usize, usize)> {
        match self.encoder {
            Some(encoder) => encoder_input(encoder),
            None => Seq::empty(),
        }
    }

    /// What the outside encoder has returned for each of them.
    pub closed spec fn replies(&self) -> Seq<Option<Seq<u8>>> {
        match self.encoder {
            Some(encoder) => encoder_output(encoder),
            None => Seq::empty(),
        }
    }

    /// The size of the recording once `frame` has come.
    pub open spec fn target_with(&self, frame: FrameData) -> (u32, u32) {
        if self.running() {
            self.target()
        } else {
            (frame.width, frame.height)
        }
    }

    /// An encoder that waits for the first frame.
    pub fn new() -> (e: Self)
        ensures
            !e.running(),
            e.target() == (1280u32, 720u32),
            e.pictures() == Seq::<(Seq<u8>, usize, usize)>::empty(),
            e.replies() == Seq::<Option<Seq<u8>>>::empty(),
    {
        FrameEncoder { encoder: None, target_width: 1280, target_height: 720 }
    }

    /// Whether the encoder takes a frame.
    pub fn accepts(&self, frame: &FrameData) -> (b: bool)
        ensures
            b == encodable(self.target_with(*frame).0, self.target_with(*frame).1),
    {
        let (width, height): (u32, u32) = match self.encoder {
            Some(_) => (self.target_width, self.target_height),
            None => (frame.width, frame.height),
        };
        assert(0 <= width * height <= u32::MAX * u32::MAX) by (nonlinear_arith)
            requires
                0 <= width <= u32::MAX,
                0 <= height <= u32::MAX,
        ;
        width % 2 == 0 && height % 2 == 0 && width >= 2 && 3 * (width as u128 * height as u128)
            <= usize::MAX as u128
    }

    /// Takes the first frame, and what came of making an encoder: the frame sets the size of
    /// the recording, an encoder is kept, and an error is handed on.
    pub fn begin(&mut self, frame: &FrameData, made: Result<Encoder, String>) -> (r: Result<
        (),
        String,
    >)
        requires
            !old(self).running(),
        ensures
            final(self).target() == (frame.width, frame.height),
            match made {
                Ok(encoder) => {
                    &&& r is Ok
                    &&& final(self).running()
                    &&& final(self).pictures() == encoder_input(encoder)
                    &&& final(self).replies() == encoder_output(encoder)
                },
                Err(text) => r == Err::<(), String>(text) && !final(self).running(),
            },
    {
        self.target_width = frame.width;
        self.target_height = frame.height;
        match made {
            Ok(encoder) => {
                self.encoder = Some(encoder);
                Ok(())
            },
            Err(text) => Err(text),
        }
    }

    /// Gets ready for a frame: the first one sets the size of the recording, and an
    /// encoder is made.
    fn prepare(&mut self, frame: &FrameData) -> (r: Result<(), String>)
        ensures
            final(self).target() == old(self).target_with(*frame),
            final(self).running() == r is Ok,
            old(self).running() ==> r is Ok,
            final(self).pictures() == old(self).pictures(),
            final(self).replies() == old(self).replies(),
    {
        if self.encoder.is_none() {
            self.begin(frame, new_encoder())
        } else {
            Ok(())
        }
    }

    /// The planes of a frame for a recording of the size that has been set.
    pub fn planes<
        Y: Fn(u8, u8, u8) -> u8 + Sync,
        U: Fn(u8, u8, u8) -> u8 + Sync,
        V: Fn(u8, u8, u8) -> u8 + Sync,
    >(&self, frame: &FrameData, luma: &Y, blue: &U, red: &V) -> (yuv: Vec<u8>)
        requires
            encodable(self.target().0, self.target().1),
            forall|r: u8, g: u8, b: u8| call_requires(*luma, (r, g, b)),
            forall|r: u8, g: u8, b: u8| call_requires(*blue, (r, g, b)),
            forall|r: u8, g: u8, b: u8| call_requires(*red, (r, g, b)),
        ensures
            crate::yuv::is_yuv(
                yuv@,
                frame.pixels@,
                frame.width,
                self.target().0,
                self.target().1,
                *luma,
                *blue,
                *red,
            ),
            yuv@.len() == 3 * (self.target().0 * self.target().1) / 2,
    {
        proof {
            crate::yuv::law_yuv_len(self.target_width, self.target_height);
        }
        to_yuv(
            frame.pixels.as_slice(),
            frame.width,
            self.target_width,
            self.target_height,
            luma,
            blue,
            red,
        )
    }

    /// Encodes a frame. How a pixel is turned into a byte of each plane is up to the
    /// caller. There can be no encoder only at the first frame. A recording that is too
    /// large for the encoder stays empty.
    pub fn encode<
        Y: Fn(u8, u8, u8) -> u8 + Sync,
        U: Fn(u8, u8, u8) -> u8 + Sync,
        V: Fn(u8, u8, u8) -> u8 + Sync,
    >(&mut self, frame: &FrameData, luma: &Y, blue: &U, red: &V) -> (outcome: EncodeOutcome)
        requires
            encodable(old(self).target_with(*frame).0, old(self).target_with(*frame).1),
            forall|r: u8, g: u8, b: u8| call_requires(*luma, (r, g, b)),
            forall|r: u8, g: u8, b: u8| call_requires(*blue, (r, g, b)),
            forall|r: u8, g: u8, b: u8| call_requires(*red, (r, g, b)),
        ensures
            final(self).target() == old(self).target_with(*frame),
            outcome is NoEncoder <==> !final(self).running(),
            old(self).running() ==> final(self).running(),
            final(self).running() ==> {
                let (yuv, width, height) = final(self).pictures().last();
                &&& final(self).pictures() == old(self).pictures().push((yuv, width, height))
                &&& width == final(self).target().0
                &&& height == final(self).target().1
                &&& crate::yuv::is_yuv(
                    yuv,
                    frame.pixels@,
                    frame.width,
                    final(self).target().0,
                    final(self).target().1,
                    *luma,
                    *blue,
                    *red,
                )
            },
            match outcome {
                EncodeOutcome::Encoded(bits) => final(self).replies() == old(self).replies().push(
                    Some(bits@),
                ),
                EncodeOutcome::Skipped => final(self).replies() == old(self).replies().push(None),
                EncodeOutcome::NoEncoder(_) => {
                    &&& final(self).pictures() == old(self).pictures()
                    &&& final(self).replies() == old(self).replies()
                },
            },
            too_large(
                final(self).target().0 as int,
                final(self).target().1 as int,
            ) ==> outcome !is Encoded,
    {
        match self.prepare(frame) {
            Err(text) => EncodeOutcome::NoEncoder(text),
            Ok(_) => {
                let yuv: Vec<u8> = self.planes(frame, luma, blue, red);
                let width: usize = self.target_width as usize;
                let height: usize = self.target_height as usize;
                match &mut self.encoder {
                    Some(encoder) => encode_outcome(encode_yuv(encoder, yuv, width, height)),
                    None => EncodeOutcome::Skipped,
                }
            },
        }
    }
}

/// The size of a recording is that of its first frame: later frames do not change it, and
/// where the first was taken, all later ones are.
pub proof fn law_first_frame_sets_the_size(e: &FrameEncoder, frame: FrameData)
    ensures
        !e.running() ==> e.target_with(frame) == (frame.width, frame.height),
        e.running() ==> e.target_with(frame) == e.target(),
        e.running() && encodable(e.target().0, e.target().1) ==> encodable(
            e.target_with(frame).0,
            e.target_with(frame).1,
        ),
{
}

/// Where an encoding thread stands.
#[derive(Debug, Clone, Copy, PartialEq, Eq, Structural)]
pub enum EncoderPhase {
    /// A frame is being waited for.
    Receiving,
    /// A frame is being encoded.
    Encoding,
    /// The bytes of a frame are being queued for the writing thread.
    Queueing,
    /// The thread is done.
    Stopped,
}

/// What an encoding thread reports.
#[derive(Debug)]
pub enum EncoderEvent {
    /// A frame came, or `None`: there will be no more.
    Received(Option<Arc<FrameData>>),
    /// A frame was handed to the encoder.
    Encoded(EncodeOutcome),
    /// The bytes were queued, or there was no room for them.
    Queued(bool),
}

/// What an encoding thread has to do next.
#[derive(Debug)]
pub enum EncoderAction {
    Receive,
    Encode(Arc<FrameData>),
    Queue(Vec<u8>),
    /// Report that there is no encoder, and stop.
    Fail(String),
    Stop,
}

/// Whether an event can come in a phase.
pub open spec fn encoder_expects(phase: EncoderPhase, event: EncoderEvent) -> bool {
    match event {
        EncoderEvent::Received(_) => phase is Receiving,
        EncoderEvent::Encoded(_) => phase is Encoding,
        EncoderEvent::Queued(_) => phase is Queueing,
    }
}

/// The phase that follows on an event.
pub open spec fn encoder_next(event: EncoderEvent) -> EncoderPhase {
    match event {
        EncoderEvent::Received(Some(_)) => EncoderPhase::Encoding,
        EncoderEvent::Received(None) => EncoderPhase::Stopped,
        EncoderEvent::Encoded(EncodeOutcome::NoEncoder(_)) => EncoderPhase::Stopped,
        EncoderEvent::Encoded(EncodeOutcome::Skipped) => EncoderPhase::Receiving,
        EncoderEvent::Encoded(EncodeOutcome::Encoded(_)) => EncoderPhase::Queueing,
        EncoderEvent::Queued(_) => EncoderPhase::Receiving,
    }
}

/// What has to be done on an event.
pub open spec fn encoder_action(event: EncoderEvent) -> EncoderAction {
    match event {
        EncoderEvent::Received(Some(frame)) => EncoderAction::Encode(frame),
        EncoderEvent::Received(None) => EncoderAction::Stop,
        EncoderEvent::Encoded(EncodeOutcome::NoEncoder(text)) => EncoderAction::Fail(text),
        EncoderEvent::Encoded(EncodeOutcome::Skipped) => EncoderAction::Receive,
        EncoderEvent::Encoded(EncodeOutcome::Encoded(bits)) => EncoderAction::Queue(bits),
        EncoderEvent::Queued(_) => EncoderAction::Receive,
    }
}

/// The decisions of an encoding thread.
#[derive(Debug)]
pub struct EncoderLoop {
    pub phase: EncoderPhase,
}

impl EncoderLoop {
    /// A thread that starts by waiting for a frame.
    pub fn new() -> (l: Self)
        ensures
            l.phase is Receiving,
    {
        EncoderLoop { phase: EncoderPhase::Receiving }
    }

    /// Takes an event and says what to do next.
    pub fn step(&mut self, event: EncoderEvent) -> (action: EncoderAction)
        requires
            encoder_expects(old(self).phase, event),
        ensures
            final(self).phase == encoder_next(event),
            action == encoder_action(event),
    {
        match event {
            EncoderEvent::Received(Some(frame)) => {
                self.phase = EncoderPhase::Encoding;
                EncoderAction::Encode(frame)
            },
            EncoderEvent::Received(None) => {
                self.phase = EncoderPhase::Stopped;
                EncoderAction::Stop
            },
            EncoderEvent::Encoded(EncodeOutcome::NoEncoder(text)) => {
                self.phase = EncoderPhase::Stopped;
                EncoderAction::Fail(text)
            },
            EncoderEvent::Encoded(EncodeOutcome::Encoded(bits)) => {
                self.phase = EncoderPhase::Queueing;
                EncoderAction::Queue(bits)
            },
            EncoderEvent::Encoded(EncodeOutcome::Skipped) | EncoderEvent::Queued(_) => {
                self.phase = EncoderPhase::Receiving;
                EncoderAction::Receive
            },
        }
    }
}

/// Different targets are kept under different numbers, and each is found again under its
/// own.
pub proof fn law_key_is_injective(a: RecordingTarget, b: RecordingTarget)
    ensures
        a.key() == b.key() ==> a == b,
        RecordingTarget::of_key(a.key()) == a,
{
}

/// Where a writing thread stands.
#[derive(Debug, Clone, Copy, PartialEq, Eq, Structural)]
pub enum WriterPhase {
    /// The file is being created.
    Creating,
    /// Data is being waited for.
    Receiving,
    /// Data is being written.
    Writing,
    /// What is left in memory is being written.
    Flushing,
    /// The thread is done.
    Stopped,
}

/// What a writing thread reports.
#[derive(Debug)]
pub enum WriterEvent {
    /// The file was created, or not.
    Created(bool),
    /// Data came, or `None`: there will be no more.
    Received(Option<Vec<u8>>),
    /// All data was written, or not.
    Written(bool),
    /// What was left was written, as far as that was possible.
    Flushed,
}

/// What a writing thread has to do next.
#[derive(Debug)]
pub enum WriterAction {
    Receive,
    Write(Vec<u8>),
    Flush,
    Stop,
}

/// Whether an event can come in a phase.
pub open spec fn writer_expects(phase: WriterPhase, event: WriterEvent) -> bool {
    match event {
        WriterEvent::Created(_) => phase is Creating,
        WriterEvent::Received(_) => phase is Receiving,
        WriterEvent::Written(_) => phase is Writing,
        WriterEvent::Flushed => phase is Flushing,
    }
}

/// The phase that follows on an event.
pub open spec fn writer_next(event: WriterEvent) -> WriterPhase {
    match event {
        WriterEvent::Created(true) => WriterPhase::Receiving,
        WriterEvent::Created(false) => WriterPhase::Stopped,
        WriterEvent::Received(Some(_)) => WriterPhase::Writing,
        WriterEvent::Received(None) => WriterPhase::Flushing,
        WriterEvent::Written(true) => WriterPhase::Receiving,
        WriterEvent::Written(false) => WriterPhase::Flushing,
        WriterEvent::Flushed => WriterPhase::Stopped,
    }
}

/// What has to be done on an event.
pub open spec fn writer_action(event: WriterEvent) -> WriterAction {
    match event {
        WriterEvent::Created(true) | WriterEvent::Written(true) => WriterAction::Receive,
        WriterEvent::Received(Some(data)) => WriterAction::Write(data),
        WriterEvent::Received(None) | WriterEvent::Written(false) => WriterAction::Flush,
        WriterEvent::Created(false) | WriterEvent::Flushed => WriterAction::Stop,
    }
}

/// The decisions of a writing thread.
#[derive(Debug)]
pub struct WriterLoop {
    pub phase: WriterPhase,
}

impl WriterLoop {
    /// A thread that starts by creating the file.
    pub fn new() -> (l: Self)
        ensures
            l.phase is Creating,
    {
        WriterLoop { phase: WriterPhase::Creating }
    }

    /// Takes an event and says what to do next.
    pub fn step(&mut self, event: WriterEvent) -> (action: WriterAction)
        requires
            writer_expects(old(self).phase, event),
        ensures
            final(self).phase == writer_next(event),
            match final(self).phase {
                WriterPhase::Receiving => action is Receive,
                WriterPhase::Writing => event matches WriterEvent::Received(Some(data)) && action
                    == WriterAction::Write(data),
                WriterPhase::Flushing => action is Flush,
                _ => action is Stop,
            },
            action == writer_action(event),
    {
        match event {
            WriterEvent::Received(Some(data)) => {
                self.phase = WriterPhase::Writing;
                WriterAction::Write(data)
            },
            WriterEvent::Created(true) | WriterEvent::Written(true) => {
                self.phase = WriterPhase::Receiving;
                WriterAction::Receive
            },
            WriterEvent::Received(None) | WriterEvent::Written(false) => {
                self.phase = WriterPhase::Flushing;
                WriterAction::Flush
            },
            WriterEvent::Created(false) | WriterEvent::Flushed => {
                self.phase = WriterPhase::Stopped;
                WriterAction::Stop
            },
        }
    }
}

/// Starting leaves nothing to start: what is to be recorded is being recorded.
pub proof fn law_start_is_idempotent(
    configs: Map<RecordingTarget, bool>,
    sessions: Set<RecordingTarget>,
    target: RecordingTarget,
)
    ensures
        !startable(configs, after_start(configs, sessions), target),
        configs.contains_key(target) && configs[target] ==> after_start(
            configs,
            sessions,
        ).contains(target),
        after_start(configs, after_start(configs, sessions)) == after_start(configs, sessions),
{
    let s = after_start(configs, sessions);
    assert(after_start(configs, s) =~= s);
}

/// Starting ends no recording, and starts none that was not asked for.
pub proof fn law_start_keeps_sessions(
    configs: Map<RecordingTarget, bool>,
    sessions: Set<RecordingTarget>,
    target: RecordingTarget,
)
    ensures
        sessions.contains(target) ==> after_start(configs, sessions).contains(target),
        after_start(configs, sessions).contains(target) ==> sessions.contains(target) || (
        configs.contains_key(target) && configs[target]),
{
}

/// Once all recordings were stopped, starting again records exactly what is to be
/// recorded.
pub proof fn law_restart_records_what_is_selected(
    configs: Map<RecordingTarget, bool>,
    target: RecordingTarget,
)
    ensures
        after_start(configs, Set::empty()).contains(target) <==> configs.contains_key(target)
            && configs[target],
{
}

/// What stands between the same beginning and the same end is the same.
proof fn lemma_middle_is_injective(front: Seq<char>, a: Seq<char>, b: Seq<char>, back: Seq<char>)
    requires
        front + a + back == front + b + back,
    ensures
        a == b,
{
    let s = front + a + back;
    let t = front + b + back;
    assert(s.len() == front.len() + a.len() + back.len());
    assert(t.len() == front.len() + b.len() + back.len());
    let n = front.len() as int;
    assert(a =~= s.subrange(n, n + a.len()));
    assert(b =~= t.subrange(n, n + b.len()));
}

/// Different targets have different names.
pub proof fn law_names_differ(a: RecordingTarget, b: RecordingTarget)
    requires
        a != b,
    ensures
        a.label() != b.label(),
{
    reveal_strlit("Input_");
    reveal_strlit("Preview");
    reveal_strlit("Program");
    if a.label() == b.label() {
        match (a, b) {
            (RecordingTarget::Input(i), RecordingTarget::Input(j)) => {
                let none = Seq::<char>::empty();
                let da = crate::text::decimal((i + 1) as nat);
                let db = crate::text::decimal((j + 1) as nat);
                assert("Input_"@ + da + none =~= a.label());
                assert("Input_"@ + db + none =~= b.label());
                lemma_middle_is_injective("Input_"@, da, db, none);
                crate::text::law_decimal_is_injective((i + 1) as nat, (j + 1) as nat);
            },
            (RecordingTarget::Input(_), _) | (_, RecordingTarget::Input(_)) => {
                assert(a.label()[0] == b.label()[0]);
            },
            _ => {
                assert(a.label()[2] == b.label()[2]);
            },
        }
    }
}

/// Recordings of different targets are written to different files, also where they were
/// started at the same time.
pub proof fn law_file_names_differ(stamp: Seq<char>, a: RecordingTarget, b: RecordingTarget)
    requires
        a != b,
    ensures
        file_name(stamp, a) != file_name(stamp, b),
{
    law_names_differ(a, b);
    if file_name(stamp, a) == file_name(stamp, b) {
        lemma_middle_is_injective(stamp + "_"@, a.label(), b.label(), ".h264"@);
    }
}

/// An encoding thread ends only when its input has ended or there is no encoder.
pub proof fn law_encoding_ends_with_its_input(phase: EncoderPhase, event: EncoderEvent)
    requires
        encoder_expects(phase, event),
        encoder_next(event) is Stopped,
    ensures
        event == EncoderEvent::Received(None) || (event matches EncoderEvent::Encoded(outcome)
            && outcome is NoEncoder),
{
}

/// A frame that the encoder refused, or whose bytes find no room, is left out, and the
/// encoding goes on.
pub proof fn law_encoding_goes_on(outcome: EncodeOutcome, queued: bool)
    requires
        outcome !is NoEncoder,
    ensures
        encoder_next(EncoderEvent::Encoded(outcome)) is Receiving || (encoder_next(
            EncoderEvent::Encoded(outcome),
        ) is Queueing && encoder_next(EncoderEvent::Queued(queued)) is Receiving),
{
}

/// A writing thread writes all that it receives, until its input ends or a write fails.
pub proof fn law_writer_drains_its_input(phase: WriterPhase, event: WriterEvent)
    requires
        writer_expects(phase, event),
        phase is Receiving || phase is Writing,
    ensures
        writer_next(event) is Flushing <==> event == WriterEvent::Received(None) || event
            == WriterEvent::Written(false),
        writer_next(event) !is Flushing ==> writer_next(event) is Receiving || writer_next(
            event,
        ) is Writing,
{
}

/// Once its file is there, a writing thread flushes before it stops, whether its input
/// ended or a write failed.
pub proof fn law_writer_flushes_before_it_stops(phase: WriterPhase, event: WriterEvent)
    requires
        writer_expects(phase, event),
        writer_next(event) is Stopped,
    ensures
        phase is Creating || phase is Flushing,
{
}

/// Inputs are named by their number, counted from one; the other two targets by a word.
pub proof fn law_inputs_are_counted_from_one(idx: usize)
    ensures
        ({
            let name = RecordingTarget::Input(idx).label();
            &&& name.len() > 6
            &&& name.subrange(0, 6) == "Input_"@
            &&& crate::text::number(name.subrange(6, name.len() as int)) == idx + 1
            &&& name[6] != '0'
        }),
        RecordingTarget::Preview.label() == "Preview"@,
        RecordingTarget::Program.label() == "Program"@,
{
    reveal_strlit("Input_");
    let d = crate::text::decimal((idx + 1) as nat);
    crate::text::law_decimal_reads_back((idx + 1) as nat);
    let name = RecordingTarget::Input(idx).label();
    assert(name.subrange(0, 6) =~= "Input_"@);
    assert(name.subrange(6, name.len() as int) =~= d);
    assert(name[6] == d[0]);
}

/// The name of a file is made of the time, the name of the target and the ending of a raw
/// H.264 stream, with an underscore between the first two, and gives each of them back.
pub proof fn law_file_name_parts(stamp: Seq<char>, target: RecordingTarget)
    ensures
        ({
            let name = file_name(stamp, target);
            let s = stamp.len() as int;
            let n = name.len() as int;
            &&& n == s + 1 + target.label().len() + 5
            &&& name.subrange(0, s) == stamp
            &&& name[s] == '_'
            &&& name.subrange(s + 1, n - 5) == target.label()
            &&& name.subrange(n - 5, n) == ".h264"@
        }),
{
    reveal_strlit("_");
    reveal_strlit(".h264");
    let name = file_name(stamp, target);
    let s = stamp.len() as int;
    let n = name.len() as int;
    assert(name.subrange(0, s) =~= stamp);
    assert(name.subrange(s + 1, n - 5) =~= target.label());
    assert(name.subrange(n - 5, n) =~= ".h264"@);
}

/// The name of a recording begins with the time at which it was started, as a number with
/// eight digits or more for the day and one with six for the time of day, and goes on with
/// the name of its target.
pub proof fn law_dated_names(name: Seq<char>, target: RecordingTarget)
    requires
        is_dated_name(name, target),
    ensures
        ({
            let n = name.len() as int;
            let s = n - 6 - target.label().len();
            &&& s >= 15
            &&& name.subrange(n - 5, n) == ".h264"@
            &&& name.subrange(s + 1, n - 5) == target.label()
            &&& name[s] == '_'
            &&& name[s - 7] == '_'
            &&& forall|i: int|
                1 <= i < s && i != s - 7 ==> '0' <= #[trigger] name[i] <= '9'
            &&& if s == 15 {
                '0' <= name[0] <= '9'
            } else {
                name[0] == '+' || name[0] == '-'
            }
            &&& 1 <= crate::text::number(name.subrange(s - 11, s - 9)) <= 12
            &&& 1 <= crate::text::number(name.subrange(s - 9, s - 7)) <= 31
            &&& crate::text::number(name.subrange(s - 6, s - 4)) <= 23
            &&& crate::text::number(name.subrange(s - 4, s - 2)) <= 59
            &&& crate::text::number(name.subrange(s - 2, s)) <= 60
        }),
{
    let stamp = choose|stamp: Seq<char>| #[trigger]
        is_stamp(stamp) && name == file_name(stamp, target);
    law_file_name_parts(stamp, target);
    let n = name.len() as int;
    let s = stamp.len() as int;
    assert(s == n - 6 - target.label().len());
    assert forall|i: int| 0 <= i < s implies #[trigger] name[i] == stamp[i] by {
        assert(name.subrange(0, s)[i] == name[i]);
    }
    lemma_two_digits(name, s - 11);
    lemma_two_digits(name, s - 9);
    lemma_two_digits(name, s - 6);
    lemma_two_digits(name, s - 4);
    lemma_two_digits(name, s - 2);
}

/// Two digits stand for the number that they are read as.
proof fn lemma_two_digits(s: Seq<char>, i: int)
    requires
        0 <= i,
        i + 2 <= s.len(),
    ensures
        crate::text::number(s.subrange(i, i + 2)) == two_digits(s, i),
{
    let t = s.subrange(i, i + 2);
    reveal_with_fuel(crate::text::number, 3);
    assert(t.last() == s[i + 1]);
    assert(t.drop_last().last() == s[i]);
    assert(t.drop_last().drop_last().len() == 0);
}

/// What has to be started is what is being recorded afterwards and was not before, and what
/// is being recorded afterwards is what was before and what is to be.
pub proof fn law_starts_are_what_is_new(
    configs: Map<RecordingTarget, bool>,
    sessions: Set<RecordingTarget>,
    target: RecordingTarget,
)
    ensures
        after_start(configs, sessions).contains(target) <==> sessions.contains(target) || (
        configs.contains_key(target) && configs[target]),
        startable(configs, sessions, target) <==> after_start(configs, sessions).contains(target)
            && !sessions.contains(target),
{
}

/// A target is among the starts exactly where one of them is its own.
pub proof fn law_started_targets(starts: Seq<RecordingStart>, target: RecordingTarget, i: int)
    ensures
        0 <= i < starts.len() && starts[i].target == target ==> started(starts, target),
        !started(starts, target) && 0 <= i < starts.len() ==> starts[i].target != target,
        starts.len() == 0 ==> !started(starts, target),
{
}

/// A picture can be encoded exactly where its sides are even, it has a column, and three
/// times its pixels can be counted; its planes then fit into memory.
pub proof fn law_encodable_pictures_fit(width: u32, height: u32)
    ensures
        encodable(width, height) <==> width > 0 && width % 2 == 0 && height % 2 == 0 && 3 * (width
            * height) <= usize::MAX,
        encodable(width, height) ==> width * height + 2 * ((width / 2) * (height / 2))
            <= isize::MAX,
{
    if encodable(width, height) {
        crate::yuv::law_yuv_len(width, height);
    }
}

/// A picture is too large exactly where it fits neither into 3840 by 2160 nor into 2160 by
/// 3840.
pub proof fn law_largest_pictures(width: int, height: int)
    requires
        0 <= width <= i32::MAX,
        0 <= height <= i32::MAX,
    ensures
        too_large(width, height) <==> !(width <= 3840 && height <= 2160) && !(width <= 2160
            && height <= 3840),
{
}

/// Every frame that an encoding thread receives is encoded, the bytes that come of it are
/// queued as they are, and then the next frame is waited for; the end of the input, and the
/// want of an encoder, end the thread.
pub proof fn law_frames_are_encoded_and_queued(
    frame: Arc<FrameData>,
    bits: Vec<u8>,
    text: String,
    queued: bool,
)
    ensures
        encoder_expects(EncoderPhase::Receiving, EncoderEvent::Received(Some(frame))),
        encoder_action(EncoderEvent::Received(Some(frame))) == EncoderAction::Encode(frame),
        encoder_next(EncoderEvent::Received(Some(frame))) is Encoding,
        encoder_action(EncoderEvent::Encoded(EncodeOutcome::Encoded(bits)))
            == EncoderAction::Queue(bits),
        encoder_next(EncoderEvent::Encoded(EncodeOutcome::Encoded(bits))) is Queueing,
        encoder_action(EncoderEvent::Encoded(EncodeOutcome::Skipped)) is Receive,
        encoder_next(EncoderEvent::Encoded(EncodeOutcome::Skipped)) is Receiving,
        encoder_action(EncoderEvent::Queued(queued)) is Receive,
        encoder_next(EncoderEvent::Queued(queued)) is Receiving,
        encoder_action(EncoderEvent::Received(None)) is Stop,
        encoder_next(EncoderEvent::Received(None)) is Stopped,
        encoder_action(EncoderEvent::Encoded(EncodeOutcome::NoEncoder(text)))
            == EncoderAction::Fail(text),
        encoder_next(EncoderEvent::Encoded(EncodeOutcome::NoEncoder(text))) is Stopped,
{
}

/// A writing thread with a file waits for data, writes what comes and waits again. It stops
/// at once where there is no file, and flushes before it stops where there is one.
pub proof fn law_writer_goes_round(data: Vec<u8>, done: bool)
    ensures
        writer_next(WriterEvent::Created(done)) == if done {
            WriterPhase::Receiving
        } else {
            WriterPhase::Stopped
        },
        writer_next(WriterEvent::Received(Some(data))) is Writing,
        writer_action(WriterEvent::Received(Some(data))) == WriterAction::Write(data),
        writer_action(WriterEvent::Created(done)) == if done {
            WriterAction::Receive
        } else {
            WriterAction::Stop
        },
        writer_action(WriterEvent::Written(done)) == if done {
            WriterAction::Receive
        } else {
            WriterAction::Flush
        },
        writer_action(WriterEvent::Received(None)) is Flush,
        writer_action(WriterEvent::Flushed) is Stop,
        writer_next(WriterEvent::Received(None)) is Flushing,
        writer_next(WriterEvent::Written(done)) == if done {
            WriterPhase::Receiving
        } else {
            WriterPhase::Flushing
        },
        writer_next(WriterEvent::Flushed) is Stopped,
{
}

} // verus!
