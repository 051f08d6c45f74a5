use multiview::layout::{LayoutConfig, LayoutType, INPUT_COLS, INPUT_ROWS};
use multiview::source::SourceId;

#[test]
fn dimensions_of_each_layout() {
    assert_eq!(LayoutType::Single.dimensions(), (1, 1));
    assert_eq!(LayoutType::Inputs4x2.dimensions(), (INPUT_COLS, INPUT_ROWS));
    assert_eq!(LayoutType::Inputs4x2.dimensions(), (4, 2));
}

#[test]
fn view_count_of_each_layout() {
    assert_eq!(LayoutType::Single.view_count(), 1);
    assert_eq!(LayoutType::Inputs4x2.view_count(), 8);
}

#[test]
fn layout_text() {
    assert_eq!(LayoutType::Single.to_string(), "Single");
    assert_eq!(LayoutType::Inputs4x2.to_string(), "Inputs 4x2");
}

#[test]
fn new_config_is_empty() {
    let config = LayoutConfig::new(LayoutType::Inputs4x2);
    assert_eq!(config.view_count(), 8);
    for i in 0..8 {
        assert_eq!(config.view(i).unwrap().source_id, None);
    }
    assert!(config.view(8).is_none());
    assert_eq!(LayoutConfig::default().view_count(), 8);
    assert_eq!(LayoutConfig::new(LayoutType::Single).view_count(), 1);
}

#[test]
fn assignment_changes_one_view() {
    let mut config = LayoutConfig::default();
    config.assign_source(3, Some(SourceId(7)));
    assert_eq!(config.view(3).unwrap().source_id, Some(SourceId(7)));
    assert_eq!(config.view(2).unwrap().source_id, None);
    config.assign_source(3, Some(SourceId(1)));
    assert_eq!(config.view(3).unwrap().source_id, Some(SourceId(1)));
    config.assign_source(3, None);
    assert_eq!(config.view(3).unwrap().source_id, None);
}

#[test]
fn assignment_outside_the_grid_is_ignored() {
    let mut config = LayoutConfig::default();
    config.assign_source(8, Some(SourceId(7)));
    assert_eq!(config.view_count(), 8);
    for i in 0..8 {
        assert_eq!(config.view(i).unwrap().source_id, None);
    }
}
