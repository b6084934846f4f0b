use iced_ntoggle::segment_position;
use iced_ntoggle::NtoggleError;
use iced_ntoggle::SegmentPosition;
use iced_ntoggle::Selection;
use iced_ntoggle::SelectionLimit;

fn limit(value: usize) -> SelectionLimit {
    SelectionLimit::new(value).unwrap()
}

#[test]
fn validates_minimum_number_of_states() {
    assert_eq!(
        Selection::single(0).validate(1),
        Err(NtoggleError::TooFewStates { min: 2, actual: 1 })
    );
}

#[test]
fn validates_single_selection_bounds() {
    assert_eq!(
        Selection::single(2).validate(2),
        Err(NtoggleError::SelectionOutOfBounds { index: 2, len: 2 })
    );
}

#[test]
fn validates_multi_selection_bounds() {
    assert_eq!(
        Selection::multiple(vec![0, 3]).validate(3),
        Err(NtoggleError::SelectionOutOfBounds { index: 3, len: 3 })
    );
}

#[test]
fn validates_duplicate_multi_selection() {
    assert_eq!(
        Selection::multiple(vec![1, 1]).validate(3),
        Err(NtoggleError::DuplicateSelection { index: 1 })
    );
}

#[test]
fn validates_limited_multi_selection() {
    assert_eq!(
        Selection::multiple_limited(vec![0, 1], limit(1)).validate(3),
        Err(NtoggleError::TooManySelected { max: 1, actual: 2 })
    );
}

#[test]
fn single_selection_moves_to_pressed_index() {
    assert_eq!(
        Selection::single(0).next_after_press(2),
        Selection::single(2)
    );
}

#[test]
fn multi_selection_adds_pressed_index() {
    assert_eq!(
        Selection::multiple(vec![0]).next_after_press(2),
        Selection::multiple(vec![0, 2])
    );
}

#[test]
fn multi_selection_removes_pressed_index() {
    assert_eq!(
        Selection::multiple(vec![0, 2]).next_after_press(0),
        Selection::multiple(vec![2])
    );
}

#[test]
fn limited_multi_selection_knows_when_it_is_full() {
    assert!(!Selection::multiple_limited(vec![0, 2], limit(2)).can_add_more());
}

#[test]
fn resolves_segment_positions() {
    assert_eq!(segment_position(0, 1), SegmentPosition::Only);
    assert_eq!(segment_position(0, 3), SegmentPosition::First);
    assert_eq!(segment_position(1, 3), SegmentPosition::Middle);
    assert_eq!(segment_position(2, 3), SegmentPosition::Last);
}

#[test]
fn accepts_valid_selections() {
    assert_eq!(Selection::single(1).validate(2), Ok(()));
    assert_eq!(Selection::multiple(vec![]).validate(2), Ok(()));
    assert_eq!(Selection::multiple(vec![2, 0]).validate(3), Ok(()));
    assert_eq!(Selection::multiple_limited(vec![0, 1], limit(2)).validate(3), Ok(()));
}

#[test]
fn too_few_states_comes_before_any_other_error() {
    assert_eq!(
        Selection::multiple(vec![4, 4]).validate(0),
        Err(NtoggleError::TooFewStates { min: 2, actual: 0 })
    );
}

#[test]
fn first_invalid_entry_decides_the_error() {
    assert_eq!(
        Selection::multiple(vec![1, 1, 7]).validate(3),
        Err(NtoggleError::DuplicateSelection { index: 1 })
    );
    assert_eq!(
        Selection::multiple(vec![7, 1, 1]).validate(3),
        Err(NtoggleError::SelectionOutOfBounds { index: 7, len: 3 })
    );
    assert_eq!(
        Selection::multiple(vec![5, 5]).validate(3),
        Err(NtoggleError::SelectionOutOfBounds { index: 5, len: 3 })
    );
}

#[test]
fn invalid_entries_come_before_the_limit() {
    assert_eq!(
        Selection::multiple_limited(vec![0, 9, 1], limit(1)).validate(3),
        Err(NtoggleError::SelectionOutOfBounds { index: 9, len: 3 })
    );
}

#[test]
fn a_limit_of_zero_cannot_be_made() {
    assert!(SelectionLimit::new(0).is_none());
    assert_eq!(limit(3).get(), 3);
}

#[test]
fn contains_reports_selected_segments() {
    assert!(Selection::single(1).contains(1));
    assert!(!Selection::single(1).contains(0));
    assert!(Selection::multiple(vec![3, 0]).contains(3));
    assert!(!Selection::multiple(vec![3, 0]).contains(1));
}

#[test]
fn can_add_more_below_the_limit() {
    assert!(Selection::single(0).can_add_more());
    assert!(Selection::multiple(vec![0, 1, 2]).can_add_more());
    assert!(Selection::multiple_limited(vec![0], limit(2)).can_add_more());
}

#[test]
fn press_sorts_and_drops_repeats() {
    assert_eq!(
        Selection::multiple(vec![3, 1, 1]).next_after_press(0),
        Selection::multiple(vec![0, 1, 3])
    );
    assert_eq!(
        Selection::multiple(vec![2, 2]).next_after_press(2),
        Selection::multiple(vec![2])
    );
}

#[test]
fn press_keeps_the_limit() {
    assert_eq!(
        Selection::multiple_limited(vec![1], limit(2)).next_after_press(0),
        Selection::multiple_limited(vec![0, 1], limit(2))
    );
}

#[test]
fn press_twice_restores_a_sorted_selection() {
    let selection = Selection::multiple(vec![0, 2, 5]);
    for index in 0..7 {
        let twice = selection.next_after_press(index).next_after_press(index);
        assert_eq!(twice, selection);
    }
}

#[test]
fn press_toggles_only_the_pressed_segment() {
    let selection = Selection::multiple(vec![4, 1]);
    let next = selection.next_after_press(1);
    assert!(!next.contains(1));
    assert!(next.contains(4));
    let next = selection.next_after_press(2);
    assert!(next.contains(1) && next.contains(2) && next.contains(4));
}

#[test]
fn an_enabled_press_keeps_the_selection_valid() {
    let selection = Selection::multiple_limited(vec![0], limit(2));
    for index in 0..4 {
        let plan = selection.plan_segment(index, 4);
        if !plan.disabled {
            assert_eq!(plan.next.validate(4), Ok(()));
        }
    }
}

#[test]
fn plans_each_segment() {
    let selection = Selection::multiple_limited(vec![0, 2], limit(2));
    let first = selection.plan_segment(0, 3);
    assert!(first.selected);
    assert!(!first.disabled);
    assert_eq!(first.next, Selection::multiple_limited(vec![2], limit(2)));
    assert_eq!(first.position, SegmentPosition::First);
    let middle = selection.plan_segment(1, 3);
    assert!(!middle.selected);
    assert!(middle.disabled);
    assert_eq!(middle.position, SegmentPosition::Middle);
    let last = selection.plan_segment(2, 3);
    assert!(last.selected);
    assert!(!last.disabled);
    assert_eq!(last.position, SegmentPosition::Last);
    let single = Selection::single(1).plan_segment(0, 2);
    assert!(!single.selected);
    assert!(!single.disabled);
    assert_eq!(single.next, Selection::single(0));
}

#[test]
fn validate_index_checks_range() {
    assert_eq!(iced_ntoggle::selection::validate_index(1, 2), Ok(()));
    assert_eq!(
        iced_ntoggle::selection::validate_index(2, 2),
        Err(NtoggleError::SelectionOutOfBounds { index: 2, len: 2 })
    );
}
