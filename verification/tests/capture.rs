use multiview::capture::{
    accept_decoded, accept_image, decode_frame, newest_delivery, CameraIndex, CaptureAction,
    CaptureEvent, CaptureLoop, CapturePhase, FrameData, FrameFormat, RawFrame, RgbImage,
};
use std::sync::Arc;

fn raw(format: FrameFormat, width: u32, height: u32, data: Vec<u8>) -> RawFrame {
    RawFrame { format, width, height, data }
}

fn frame(value: u8) -> FrameData {
    FrameData { pixels: Arc::new(vec![value; 3]), width: 1, height: 1 }
}

#[test]
fn decode_rgb_takes_the_bytes_over() {
    let f = decode_frame(&raw(FrameFormat::RawRgb, 1, 2, vec![1, 2, 3, 4, 5, 6])).unwrap();
    assert_eq!((f.width, f.height), (1, 2));
    assert_eq!(*f.pixels, vec![1, 2, 3, 4, 5, 6]);
}

#[test]
fn decode_bgr_swaps() {
    let f = decode_frame(&raw(FrameFormat::RawBgr, 1, 2, vec![1, 2, 3, 4, 5, 6])).unwrap();
    assert_eq!(*f.pixels, vec![3, 2, 1, 6, 5, 4]);
    let f = decode_frame(&raw(FrameFormat::RawBgr, 1, 1, vec![1, 2, 3, 4, 5])).unwrap();
    assert_eq!(*f.pixels, vec![3, 2, 1, 0, 0]);
}

#[test]
fn decode_gray_repeats() {
    let f = decode_frame(&raw(FrameFormat::Gray, 2, 1, vec![9, 200])).unwrap();
    assert_eq!(*f.pixels, vec![9, 9, 9, 200, 200, 200]);
}

#[test]
fn decode_yuyv() {
    let f = decode_frame(&raw(FrameFormat::Yuyv, 2, 1, vec![16, 128, 235, 128])).unwrap();
    assert_eq!(*f.pixels, vec![0, 0, 0, 255, 255, 255]);
}

#[test]
fn decode_nv12() {
    let f = decode_frame(&raw(FrameFormat::Nv12, 2, 2, vec![16, 235, 16, 235, 128, 128])).unwrap();
    assert_eq!(*f.pixels, vec![0, 0, 0, 255, 255, 255, 0, 0, 0, 255, 255, 255]);
}

#[test]
fn decode_yuyv_in_colour() {
    let data = vec![81, 90, 81, 240, 100, 150, 16, 100];
    let f = decode_frame(&raw(FrameFormat::Yuyv, 4, 1, data)).unwrap();
    assert_eq!(*f.pixels, vec![255, 0, 0, 255, 0, 0, 53, 112, 142, 0, 14, 44]);
}

#[test]
fn decode_nv12_in_colour() {
    // Four columns and two rows share two pairs of colour.
    let data = vec![81, 81, 100, 100, 81, 81, 100, 100, 90, 240, 150, 100];
    let f = decode_frame(&raw(FrameFormat::Nv12, 4, 2, data)).unwrap();
    let row = vec![255, 0, 0, 255, 0, 0, 53, 112, 142, 53, 112, 142];
    assert_eq!(*f.pixels, vec![row.clone(), row].concat());
    // Two columns and four rows: the lower half has a pair of its own.
    let data = vec![81, 81, 81, 81, 100, 100, 100, 100, 90, 240, 150, 100];
    let f = decode_frame(&raw(FrameFormat::Nv12, 2, 4, data)).unwrap();
    assert_eq!(f.pixels[..3], [255, 0, 0]);
    assert_eq!(f.pixels[9..12], [255, 0, 0]);
    assert_eq!(f.pixels[12..15], [53, 112, 142]);
    assert_eq!(f.pixels[21..], [53, 112, 142]);
}

#[test]
fn decode_of_a_wrong_size_fails() {
    let cases = vec![
        raw(FrameFormat::RawRgb, 2, 2, vec![0; 11]),
        raw(FrameFormat::RawBgr, 2, 2, vec![0; 11]),
        raw(FrameFormat::Gray, 2, 2, vec![0; 3]),
        raw(FrameFormat::Yuyv, 2, 2, vec![0; 4]),
        raw(FrameFormat::Yuyv, 2, 1, vec![0; 5]),
        raw(FrameFormat::Nv12, 2, 2, vec![0; 5]),
        raw(FrameFormat::Nv12, 3, 2, vec![0; 9]),
        raw(FrameFormat::Nv12, 0, 2, vec![0; 1]),
    ];
    for case in cases {
        assert!(case.is_decodable());
        let message = decode_frame(&case).unwrap_err();
        assert!(message.starts_with("Frame decode failed: Could not process frame "));
    }
}

#[test]
fn decode_of_an_empty_picture() {
    let message = decode_frame(&raw(FrameFormat::RawRgb, 0, 4, Vec::new())).unwrap_err();
    assert_eq!(message, "Invalid resolution: 0x4");
}

#[test]
fn frames_that_are_not_decoded_here() {
    assert!(!raw(FrameFormat::Mjpeg, 2, 2, vec![0; 12]).is_decodable());
    assert!(!raw(FrameFormat::Nv12, 0, 2, Vec::new()).is_decodable());
    assert!(!raw(FrameFormat::Nv12, 40000, 40000, Vec::new()).is_decodable());
    assert!(!raw(FrameFormat::Nv12, u32::MAX, 0, Vec::new()).is_decodable());
    assert!(raw(FrameFormat::Nv12, 2, 2, Vec::new()).is_decodable());
    assert!(raw(FrameFormat::Yuyv, 0, 0, Vec::new()).is_decodable());
}

#[test]
fn accepting_images() {
    let f = accept_image(RgbImage { width: 1, height: 1, pixels: vec![1, 2, 3] }).unwrap();
    assert_eq!((f.width, f.height, f.pixels.len()), (1, 1, 3));
    let message =
        accept_image(RgbImage { width: 640, height: 0, pixels: Vec::new() }).unwrap_err();
    assert_eq!(message, "Invalid resolution: 640x0");
    assert_eq!(
        accept_decoded(Err("bad data".to_string())).unwrap_err(),
        "Frame decode failed: bad data"
    );
}

#[test]
fn capture_runs_until_there_is_no_receiver() {
    let mut l = CaptureLoop::new();
    assert!(matches!(l.step(CaptureEvent::Created(Ok(()))), CaptureAction::OpenStream));
    assert!(matches!(l.step(CaptureEvent::Opened(Ok(()))), CaptureAction::CaptureFrame));
    let action = l.step(CaptureEvent::Captured(raw(FrameFormat::RawRgb, 1, 1, vec![1, 2, 3])));
    match action {
        CaptureAction::Deliver(Ok(f)) => assert_eq!(*f.pixels, vec![1, 2, 3]),
        _ => panic!("no frame was delivered"),
    }
    assert!(matches!(l.step(CaptureEvent::Delivered(true)), CaptureAction::CaptureFrame));
    match l.step(CaptureEvent::CaptureFailed("unplugged".to_string())) {
        CaptureAction::Deliver(Err(m)) => assert_eq!(m, "Frame capture failed: unplugged"),
        _ => panic!("no message was delivered"),
    }
    assert!(matches!(l.step(CaptureEvent::Delivered(true)), CaptureAction::CaptureFrame));
    match l.step(CaptureEvent::Decoded(Err("broken".to_string()))) {
        CaptureAction::Deliver(Err(m)) => assert_eq!(m, "Frame decode failed: broken"),
        _ => panic!("no message was delivered"),
    }
    assert!(matches!(l.step(CaptureEvent::Delivered(false)), CaptureAction::Finish));
    assert_eq!(l.phase, CapturePhase::Finished);
}

#[test]
fn capture_ends_without_a_camera() {
    let mut l = CaptureLoop::new();
    match l.step(CaptureEvent::Created(Err("busy".to_string()))) {
        CaptureAction::Deliver(Err(m)) => assert_eq!(m, "Failed to create camera: busy"),
        _ => panic!("no message was delivered"),
    }
    assert!(matches!(l.step(CaptureEvent::Delivered(true)), CaptureAction::Finish));
}

#[test]
fn capture_ends_without_a_stream() {
    let mut l = CaptureLoop::new();
    l.step(CaptureEvent::Created(Ok(())));
    match l.step(CaptureEvent::Opened(Err("denied".to_string()))) {
        CaptureAction::Deliver(Err(m)) => assert_eq!(m, "Failed to open stream: denied"),
        _ => panic!("no message was delivered"),
    }
    assert!(matches!(l.step(CaptureEvent::Delivered(false)), CaptureAction::Finish));
    assert_eq!(l.phase, CapturePhase::Finished);
}

#[test]
fn newest_frame_wins() {
    assert!(newest_delivery(Vec::new()).unwrap().is_none());
    let f = newest_delivery(vec![Ok(frame(1)), Ok(frame(2))]).unwrap().unwrap();
    assert_eq!(*f.pixels, vec![2, 2, 2]);
}

#[test]
fn any_message_wins_over_frames() {
    let received = vec![
        Err("first".to_string()),
        Ok(frame(1)),
        Err("second".to_string()),
        Ok(frame(2)),
    ];
    assert_eq!(newest_delivery(received).unwrap_err(), "second");
}

#[test]
fn camera_index_is_cloned() {
    let index = CameraIndex::String("rtsp://host".to_string());
    assert_eq!(index.clone(), index);
    assert_eq!(CameraIndex::Index(3).clone(), CameraIndex::Index(3));
}
