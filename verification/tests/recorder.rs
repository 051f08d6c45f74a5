use multiview::recorder::{
    encode_outcome, recording_file_name, EncodeOutcome, EncoderAction, EncoderEvent, EncoderLoop,
    EncoderPhase, FrameData, FrameEncoder, RecorderManager, RecordingTarget,
    WriterAction, WriterEvent, WriterLoop, WriterPhase,
};
use multiview::targets::RecordConfigs;
use std::path::PathBuf;
use std::sync::Arc;

fn luma(r: u8, g: u8, b: u8) -> u8 {
    (0.299 * r as f32 + 0.587 * g as f32 + 0.114 * b as f32) as u8
}

fn blue(r: u8, g: u8, b: u8) -> u8 {
    (-0.147 * r as f32 - 0.289 * g as f32 + 0.436 * b as f32 + 128.0) as u8
}

fn red(r: u8, g: u8, b: u8) -> u8 {
    (0.615 * r as f32 - 0.515 * g as f32 - 0.100 * b as f32 + 128.0) as u8
}

fn filled(width: u32, height: u32, value: u8) -> FrameData {
    let len = width as usize * height as usize * 3;
    FrameData { pixels: Arc::new(vec![value; len]), width, height }
}

#[test]
fn planes_of_primary_colours() {
    let mut pixels = Vec::new();
    for rgb in [[255, 0, 0], [0, 255, 0], [0, 0, 255], [255, 255, 255]] {
        pixels.extend_from_slice(&rgb);
    }
    let frame = FrameData { pixels: Arc::new(pixels), width: 2, height: 2 };
    let mut e = FrameEncoder::new();
    assert!(e.accepts(&frame));
    e.encode(&frame, &luma, &blue, &red);
    // Luma of red, green, blue and white; then the chroma of the red pixel.
    assert_eq!(e.planes(&frame, &luma, &blue, &red), vec![76, 149, 29, 255, 90, 255]);
}

#[test]
fn target_names() {
    assert_eq!(RecordingTarget::Input(0).name(), "Input_1");
    assert_eq!(RecordingTarget::Input(9).name(), "Input_10");
    assert_eq!(RecordingTarget::Preview.name(), "Preview");
    assert_eq!(RecordingTarget::Program.name(), "Program");
}

#[test]
fn file_names() {
    assert_eq!(
        recording_file_name("20240102_030405", RecordingTarget::Input(2)),
        "20240102_030405_Input_3.h264"
    );
    assert_ne!(
        recording_file_name("20240102_030405", RecordingTarget::Preview),
        recording_file_name("20240102_030405", RecordingTarget::Program)
    );
}

#[test]
fn new_manager_records_nothing() {
    let m = RecorderManager::new(PathBuf::from("/tmp"));
    assert!(!m.is_recording());
    assert!(!m.show_settings);
    assert_eq!(m.save_dir, PathBuf::from("/tmp"));
    assert_eq!(m.record_configs.get(&RecordingTarget::Preview), None);
}

#[test]
fn start_takes_the_selected_targets() {
    let mut m = RecorderManager::new(PathBuf::from("."));
    m.record_configs.insert(RecordingTarget::Input(0), true);
    m.record_configs.insert(RecordingTarget::Preview, false);
    m.record_configs.insert(RecordingTarget::Program, true);
    assert_eq!(m.record_configs.get(&RecordingTarget::Preview), Some(&false));
    let starts = m.start_selected();
    assert_eq!(starts.len(), 2);
    assert!(m.is_recording());
    assert!(m.is_recording_target(&RecordingTarget::Input(0)));
    assert!(m.is_recording_target(&RecordingTarget::Program));
    assert!(!m.is_recording_target(&RecordingTarget::Preview));
    for start in &starts {
        let tail = format!("_{}.h264", start.target.name());
        assert!(start.file_name.ends_with(&tail));
        let stamp = &start.file_name[..start.file_name.len() - tail.len()];
        assert_eq!(stamp.len(), 15);
        for (i, c) in stamp.chars().enumerate() {
            assert_eq!(c == '_', i == 8);
            assert_eq!(c.is_ascii_digit(), i != 8);
        }
        let part = |i: usize| stamp[i..i + 2].parse::<u32>().unwrap();
        assert!((1..=12).contains(&part(4)));
        assert!((1..=31).contains(&part(6)));
        assert!(part(9) <= 23);
        assert!(part(11) <= 59);
        assert!(part(13) <= 60);
    }
}

#[test]
fn starting_again_starts_only_what_is_new() {
    let mut m = RecorderManager::new(PathBuf::from("."));
    m.record_configs.insert(RecordingTarget::Preview, true);
    assert_eq!(m.start_selected().len(), 1);
    assert!(m.start_selected().is_empty());
    m.record_configs.insert(RecordingTarget::Input(usize::MAX), true);
    let starts = m.start_selected();
    assert_eq!(starts.len(), 1);
    assert_eq!(starts[0].target, RecordingTarget::Input(usize::MAX));
    // Switching a target off does not end its recording.
    m.record_configs.insert(RecordingTarget::Preview, false);
    assert!(m.start_selected().is_empty());
    assert!(m.is_recording_target(&RecordingTarget::Preview));
}

#[test]
fn stopping_ends_all_recordings() {
    let mut m = RecorderManager::new(PathBuf::from("."));
    m.record_configs.insert(RecordingTarget::Preview, true);
    m.record_configs.insert(RecordingTarget::Program, true);
    m.start_selected();
    let stopped = m.stop_all();
    assert_eq!(stopped.len(), 2);
    assert!(stopped.contains(&RecordingTarget::Preview));
    assert!(stopped.contains(&RecordingTarget::Program));
    assert!(!m.is_recording());
    assert!(m.stop_all().is_empty());
    assert_eq!(m.start_selected().len(), 2);
}

#[test]
fn settings_are_set_listed_and_removed() {
    let mut c = RecordConfigs::new();
    assert!(c.targets().is_empty());
    assert_eq!(c.insert(RecordingTarget::Input(0), true), None);
    assert_eq!(c.insert(RecordingTarget::Program, false), None);
    assert_eq!(c.insert(RecordingTarget::Input(0), false), Some(true));
    assert_eq!(c.get(&RecordingTarget::Input(0)), Some(&false));
    assert_eq!(c.get(&RecordingTarget::Input(1)), None);
    let targets = c.targets();
    assert_eq!(targets.len(), 2);
    assert!(targets.contains(&RecordingTarget::Input(0)));
    assert!(targets.contains(&RecordingTarget::Program));
    assert_eq!(c.remove(&RecordingTarget::Preview), None);
    assert_eq!(c.remove(&RecordingTarget::Program), Some(false));
    assert_eq!(c.targets(), vec![RecordingTarget::Input(0)]);
}

#[test]
fn removed_targets_are_not_started() {
    let mut m = RecorderManager::new(PathBuf::from("/tmp"));
    m.show_settings = true;
    m.record_configs.insert(RecordingTarget::Preview, true);
    m.record_configs.insert(RecordingTarget::Program, true);
    m.record_configs.remove(&RecordingTarget::Preview);
    let starts = m.start_selected();
    assert_eq!(starts.len(), 1);
    assert_eq!(starts[0].target, RecordingTarget::Program);
    assert!(m.sessions.contains(&RecordingTarget::Program));
    assert!(m.show_settings);
    assert_eq!(m.save_dir, PathBuf::from("/tmp"));
}

#[test]
fn session_begins_with_an_encoder_or_not() {
    let mut e = FrameEncoder::new();
    let frame = filled(32, 16, 100);
    assert_eq!(e.begin(&frame, Err("none left".to_string())), Err("none left".to_string()));
    // There is no encoder, so the next frame sets the size.
    assert!(!e.accepts(&filled(7, 3, 100)));
    let made = openh264::encoder::Encoder::new().map_err(|error| format!("{:?}", error));
    assert_eq!(e.begin(&frame, made), Ok(()));
    assert!(e.accepts(&filled(7, 3, 100)));
    assert!(matches!(
        e.encode(&frame, &luma, &blue, &red),
        EncodeOutcome::Encoded(_)
    ));
}

#[test]
fn frames_go_to_running_sessions_only() {
    let mut m = RecorderManager::new(PathBuf::from("."));
    m.record_configs.insert(RecordingTarget::Preview, true);
    let frame = Arc::new(filled(2, 2, 1));
    assert!(m.dispatch_frame(RecordingTarget::Preview, frame.clone()).is_none());
    m.start_selected();
    assert!(m.dispatch_frame(RecordingTarget::Preview, frame.clone()).is_some());
    assert!(m.dispatch_frame(RecordingTarget::Program, frame).is_none());
}

#[test]
fn encoder_takes_the_size_of_the_first_frame() {
    let mut e = FrameEncoder::new();
    assert!(e.accepts(&filled(32, 16, 100)));
    match e.encode(&filled(32, 16, 100), &luma, &blue, &red) {
        EncodeOutcome::Encoded(bits) => {
            assert_eq!(bits[..4], [0, 0, 0, 1]);
        }
        _ => panic!("the frame was not encoded"),
    }
    // A frame of another size is taken at the size of the first.
    assert!(e.accepts(&filled(7, 3, 100)));
    assert!(!matches!(
        e.encode(&filled(7, 3, 100), &luma, &blue, &red),
        EncodeOutcome::NoEncoder(_)
    ));
    assert_eq!(e.planes(&filled(7, 3, 100), &luma, &blue, &red).len(), 32 * 16 * 3 / 2);
}

#[test]
fn encoder_refuses_odd_sizes() {
    let e = FrameEncoder::new();
    assert!(!e.accepts(&filled(7, 4, 0)));
    assert!(!e.accepts(&filled(8, 3, 0)));
    assert!(!e.accepts(&filled(0, 4, 0)));
    assert!(e.accepts(&filled(2, 2, 0)));
}

#[test]
fn reply_of_the_encoder() {
    assert!(matches!(encode_outcome(None), EncodeOutcome::Skipped));
    match encode_outcome(Some(vec![0, 0, 1])) {
        EncodeOutcome::Encoded(bits) => assert_eq!(bits, vec![0, 0, 1]),
        _ => panic!("the bytes are lost"),
    }
}

#[test]
fn encoder_takes_pictures_up_to_its_limit() {
    let mut wide = FrameEncoder::new();
    assert!(matches!(
        wide.encode(&filled(3840, 16, 9), &luma, &blue, &red),
        EncodeOutcome::Encoded(_)
    ));
    let mut square = FrameEncoder::new();
    assert!(matches!(
        square.encode(&filled(2162, 2162, 9), &luma, &blue, &red),
        EncodeOutcome::Skipped
    ));
    // The size stays, so the later frames of the recording are left out too.
    assert!(matches!(
        square.encode(&filled(16, 16, 9), &luma, &blue, &red),
        EncodeOutcome::Skipped
    ));
}

#[test]
fn encoder_skips_what_is_too_large() {
    let mut e = FrameEncoder::new();
    assert!(matches!(
        e.encode(&filled(4000, 2, 9), &luma, &blue, &red),
        EncodeOutcome::Skipped
    ));
}

#[test]
fn planes_of_a_waiting_encoder() {
    let e = FrameEncoder::new();
    let yuv = e.planes(&filled(2, 2, 255), &luma, &blue, &red);
    assert_eq!(yuv.len(), 1280 * 720 * 3 / 2);
    // The frame has four pixels, the third of which starts its second row.
    let white = luma(255, 255, 255);
    assert_eq!(yuv[0..5], [white, white, white, white, 0]);
    assert_eq!(yuv[1280..1283], [white, white, 0]);
    assert_eq!(yuv[2560], 0);
}

#[test]
fn encoding_goes_on_until_the_input_ends() {
    let mut l = EncoderLoop::new();
    let frame = Arc::new(filled(2, 2, 7));
    match l.step(EncoderEvent::Received(Some(frame.clone()))) {
        EncoderAction::Encode(f) => assert!(Arc::ptr_eq(&f, &frame)),
        _ => panic!("nothing to encode"),
    }
    match l.step(EncoderEvent::Encoded(EncodeOutcome::Encoded(vec![1, 2]))) {
        EncoderAction::Queue(bits) => assert_eq!(bits, vec![1, 2]),
        _ => panic!("nothing to queue"),
    }
    // There was no room for the bytes.
    assert!(matches!(l.step(EncoderEvent::Queued(false)), EncoderAction::Receive));
    l.step(EncoderEvent::Received(Some(frame)));
    assert!(matches!(
        l.step(EncoderEvent::Encoded(EncodeOutcome::Skipped)),
        EncoderAction::Receive
    ));
    assert!(matches!(l.step(EncoderEvent::Received(None)), EncoderAction::Stop));
    assert_eq!(l.phase, EncoderPhase::Stopped);
}

#[test]
fn encoding_ends_without_an_encoder() {
    let mut l = EncoderLoop::new();
    l.step(EncoderEvent::Received(Some(Arc::new(filled(2, 2, 7)))));
    match l.step(EncoderEvent::Encoded(EncodeOutcome::NoEncoder("out".to_string()))) {
        EncoderAction::Fail(text) => assert_eq!(text, "out"),
        _ => panic!("the error is lost"),
    }
    assert_eq!(l.phase, EncoderPhase::Stopped);
}

#[test]
fn narrower_frame_runs_on_into_the_next_row() {
    let mut e = FrameEncoder::new();
    e.encode(&filled(4, 2, 0), &luma, &blue, &red);
    let pixels: Vec<u8> = (0..4u8).flat_map(|k| [k, k, k]).collect();
    let frame = FrameData { pixels: Arc::new(pixels), width: 2, height: 2 };
    let first = |r: u8, _g: u8, _b: u8| r;
    let yuv = e.planes(&frame, &first, &first, &first);
    assert_eq!(yuv, vec![0, 1, 2, 3, 2, 3, 0, 0, 0, 2, 0, 2]);
}

#[test]
fn writer_writes_until_the_input_ends() {
    let mut w = WriterLoop::new();
    assert!(matches!(w.step(WriterEvent::Created(true)), WriterAction::Receive));
    match w.step(WriterEvent::Received(Some(vec![1, 2, 3]))) {
        WriterAction::Write(data) => assert_eq!(data, vec![1, 2, 3]),
        _ => panic!("nothing to write"),
    }
    assert!(matches!(w.step(WriterEvent::Written(true)), WriterAction::Receive));
    assert!(matches!(w.step(WriterEvent::Received(None)), WriterAction::Flush));
    assert!(matches!(w.step(WriterEvent::Flushed), WriterAction::Stop));
    assert_eq!(w.phase, WriterPhase::Stopped);
}

#[test]
fn writer_flushes_after_a_failed_write() {
    let mut w = WriterLoop::new();
    w.step(WriterEvent::Created(true));
    w.step(WriterEvent::Received(Some(vec![1])));
    assert!(matches!(w.step(WriterEvent::Written(false)), WriterAction::Flush));
    assert!(matches!(w.step(WriterEvent::Flushed), WriterAction::Stop));
}

#[test]
fn writer_stops_without_a_file() {
    let mut w = WriterLoop::new();
    assert!(matches!(w.step(WriterEvent::Created(false)), WriterAction::Stop));
    assert_eq!(w.phase, WriterPhase::Stopped);
}
