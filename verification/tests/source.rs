use multiview::capture::{CameraIndex, DeviceInfo, FrameData, FrameReply};
use multiview::source::{CameraSource, SourceId, SourceManager, VideoSource};
use std::sync::Arc;

fn sources() -> SourceManager {
    SourceManager::new(vec![
        DeviceInfo { name: "Front".to_string(), index: CameraIndex::Index(4) },
        DeviceInfo { name: "Door".to_string(), index: CameraIndex::Index(5) },
    ])
}

fn one_pixel(value: u8) -> FrameData {
    FrameData { pixels: Arc::new(vec![value; 3]), width: 1, height: 1 }
}

#[test]
fn camera_source_starts_once() {
    let mut s = CameraSource::new(SourceId(3), "Front".to_string(), CameraIndex::Index(4));
    assert_eq!(s.id(), SourceId(3));
    assert_eq!(s.name(), "Front");
    assert_eq!(s.start(), Ok(Some(CameraIndex::Index(4))));
    assert_eq!(s.start(), Ok(None));
    s.stop();
    assert!(matches!(s.get_frame(Vec::new()), Ok(FrameReply::Start(CameraIndex::Index(4)))));
    assert!(matches!(s.get_frame(Vec::new()), Ok(FrameReply::Frame(None))));
}

#[test]
fn sources_are_listed_in_order() {
    let m = sources();
    let infos = m.available_sources();
    assert_eq!(infos.len(), 2);
    assert_eq!((infos[0].id, infos[0].name.as_str()), (SourceId(0), "Front"));
    assert_eq!((infos[1].id, infos[1].name.as_str()), (SourceId(1), "Door"));
    assert_eq!(m.active_source_ids(), vec![SourceId(0), SourceId(1)]);
}

#[test]
fn unknown_source_is_refused() {
    let mut m = sources();
    let id = SourceId(10);
    let message = format!("Source {:?} not found", id);
    assert_eq!(m.open_source(id), Err(message.clone()));
    assert!(matches!(m.get_frame(id, Vec::new()), Err(e) if e == message));
    m.close_source(id);
    assert_eq!(m.active_source_ids().len(), 2);
}

#[test]
fn closing_a_source_undoes_opening_it() {
    let mut m = sources();
    assert_eq!(m.open_source(SourceId(1)), Ok(Some(CameraIndex::Index(5))));
    assert_eq!(m.open_source(SourceId(1)), Ok(None));
    m.close_source(SourceId(1));
    assert_eq!(m.open_source(SourceId(1)), Ok(Some(CameraIndex::Index(5))));
}

#[test]
fn frames_of_a_source() {
    let mut m = sources();
    assert!(matches!(
        m.get_frame(SourceId(0), vec![Ok(one_pixel(9))]),
        Ok(FrameReply::Start(CameraIndex::Index(4)))
    ));
    match m.get_frame(SourceId(0), vec![Ok(one_pixel(1)), Ok(one_pixel(2))]) {
        Ok(FrameReply::Frame(Some(f))) => assert_eq!(*f.pixels, vec![2, 2, 2]),
        _ => panic!("no frame"),
    }
    assert!(matches!(
        m.get_frame(SourceId(0), vec![Ok(one_pixel(1)), Err("gone".to_string())]),
        Err(e) if e == "gone"
    ));
}
