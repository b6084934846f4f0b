use iced_ntoggle::segment_position;
use iced_ntoggle::segment_state;
use iced_ntoggle::ButtonStatus;
use iced_ntoggle::SegmentPosition;
use iced_ntoggle::SegmentState;

#[test]
fn a_lone_segment_is_only() {
    assert_eq!(segment_position(0, 1), SegmentPosition::Only);
    assert_eq!(segment_position(4, 1), SegmentPosition::Only);
}

#[test]
fn two_segments_are_first_and_last() {
    assert_eq!(segment_position(0, 2), SegmentPosition::First);
    assert_eq!(segment_position(1, 2), SegmentPosition::Last);
}

#[test]
fn disabled_and_pressed_win_over_selection() {
    assert_eq!(segment_state(true, ButtonStatus::Disabled), SegmentState::Disabled);
    assert_eq!(segment_state(false, ButtonStatus::Disabled), SegmentState::Disabled);
    assert_eq!(segment_state(true, ButtonStatus::Pressed), SegmentState::Pressed);
    assert_eq!(segment_state(false, ButtonStatus::Pressed), SegmentState::Pressed);
}

#[test]
fn selection_decides_active_and_hovered_looks() {
    assert_eq!(segment_state(true, ButtonStatus::Active), SegmentState::Selected);
    assert_eq!(segment_state(false, ButtonStatus::Active), SegmentState::Normal);
    assert_eq!(segment_state(true, ButtonStatus::Hovered), SegmentState::SelectedHovered);
    assert_eq!(segment_state(false, ButtonStatus::Hovered), SegmentState::Hovered);
}
