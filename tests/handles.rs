use meshtools::handle::{Action, ViewMode};
use meshtools::surfaces::{TrackInnerSurfaceDescription, TrackOuterSurfaceDescription};

#[test]
fn action_text_round_trips() {
    for a in [Action::ChangeCirclePosition, Action::ChangeCircleRadius] {
        assert_eq!(Action::from_str(a.to_str()), Some(a));
    }
}

#[test]
fn action_texts() {
    assert_eq!(Action::ChangeCircleRadius.to_str(), "change_circle_radius");
    assert_eq!(Action::ChangeCirclePosition.to_str(), "change_circle_position");
    assert_eq!(Action::from_str("change_circle_position"), Some(Action::ChangeCirclePosition));
}

#[test]
fn unknown_action_text_is_none() {
    assert_eq!(Action::from_str(""), None);
    assert_eq!(Action::from_str("change_circle"), None);
    assert_eq!(Action::from_str("Change_circle_radius"), None);
}

#[test]
fn enums_compare_by_variant() {
    assert_ne!(ViewMode::SchematicMain, ViewMode::VisualizerMain);
    assert_ne!(TrackOuterSurfaceDescription::Simple, TrackOuterSurfaceDescription::Chunky);
    assert_eq!(TrackInnerSurfaceDescription::Simple, TrackInnerSurfaceDescription::Simple);
}
