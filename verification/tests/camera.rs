use multiview::camera::{CameraId, CameraManager};
use multiview::capture::{CameraIndex, DeviceInfo, FrameData, FrameReply};
use std::sync::Arc;

fn manager() -> CameraManager {
    CameraManager::new(vec![
        DeviceInfo { name: "Front".to_string(), index: CameraIndex::Index(4) },
        DeviceInfo { name: "Door".to_string(), index: CameraIndex::String("url".to_string()) },
    ])
}

fn frame(value: u8) -> FrameData {
    FrameData { pixels: Arc::new(vec![value; 3]), width: 1, height: 1 }
}

#[test]
fn cameras_are_numbered_in_order() {
    let m = manager();
    let cameras = m.available_cameras();
    assert_eq!(cameras.len(), 2);
    assert_eq!(cameras[0].id, CameraId(0));
    assert_eq!(cameras[0].name, "Front");
    assert_eq!(cameras[1].id, CameraId(1));
    assert_eq!(cameras[1].index, CameraIndex::String("url".to_string()));
    assert!(m.active_camera_ids().is_empty());
}

#[test]
fn opening_twice_is_opening_once() {
    let mut m = manager();
    assert_eq!(m.open_camera(CameraId(0)), Ok(Some(CameraIndex::Index(4))));
    assert_eq!(m.open_camera(CameraId(0)), Ok(None));
    assert_eq!(m.active_camera_ids(), vec![CameraId(0)]);
}

#[test]
fn unknown_camera_is_refused() {
    let mut m = manager();
    assert_eq!(
        m.open_camera(CameraId(2)),
        Err("Camera CameraId(2) not found".to_string())
    );
    assert!(matches!(
        m.get_frame(CameraId(12), Vec::new()),
        Err(message) if message == "Camera CameraId(12) not found"
    ));
    assert!(m.active_camera_ids().is_empty());
}

#[test]
fn message_names_the_camera_as_debug_does() {
    let id = CameraId(907);
    assert_eq!(
        manager().open_camera(id).unwrap_err(),
        format!("Camera {:?} not found", id)
    );
}

#[test]
fn closing_undoes_opening() {
    let mut m = manager();
    m.open_camera(CameraId(0)).unwrap();
    m.open_camera(CameraId(1)).unwrap();
    m.close_camera(CameraId(0));
    m.close_camera(CameraId(9));
    assert_eq!(m.active_camera_ids(), vec![CameraId(1)]);
    assert_eq!(m.open_camera(CameraId(0)), Ok(Some(CameraIndex::Index(4))));
    let mut ids: Vec<usize> = m.active_camera_ids().iter().map(|id| id.0).collect();
    ids.sort();
    assert_eq!(ids, vec![0, 1]);
}

#[test]
fn first_request_starts_the_camera() {
    let mut m = manager();
    assert!(matches!(
        m.get_frame(CameraId(0), Vec::new()),
        Ok(FrameReply::Start(CameraIndex::Index(4)))
    ));
    assert!(matches!(m.get_frame(CameraId(0), Vec::new()), Ok(FrameReply::Frame(None))));
    match m.get_frame(CameraId(0), vec![Ok(frame(1)), Ok(frame(2))]) {
        Ok(FrameReply::Frame(Some(f))) => assert_eq!(*f.pixels, vec![2, 2, 2]),
        _ => panic!("no frame"),
    }
    assert!(matches!(
        m.get_frame(CameraId(0), vec![Err("lost".to_string()), Ok(frame(3))]),
        Err(message) if message == "lost"
    ));
}
