use vstd::prelude::*;

verus! {

/// Where a segment stands in the row, which decides which of its corners are rounded.
#[derive(Debug, Clone, Copy, PartialEq, Eq, Structural)]
pub enum SegmentPosition {
    /// The row has this segment alone.
    Only,
    /// The leftmost of several segments.
    First,
    /// Neither end of the row.
    Middle,
    /// The rightmost of several segments.
    Last,
}

/// The position of segment `index` in a row of `len` segments.
pub open spec fn position_in_row(index: int, len: int) -> SegmentPosition {
    if len == 1 {
        SegmentPosition::Only
    } else if index == 0 {
        SegmentPosition::First
    } else if index + 1 == len {
        SegmentPosition::Last
    } else {
        SegmentPosition::Middle
    }
}

/// The position of segment `index` in a row of `len` segments.
pub fn segment_position(index: usize, len: usize) -> (position: SegmentPosition)
    requires
        len == 1 || index == 0 || index < usize::MAX,
    ensures
        position == position_in_row(index as int, len as int),
        len == 1 ==> position == SegmentPosition::Only,
        len >= 2 && index == 0 ==> position == SegmentPosition::First,
        len >= 2 && index + 1 == len ==> position == SegmentPosition::Last,
        len >= 2 && 0 < index && index + 1 != len ==> position == SegmentPosition::Middle,
{
    if len == 1 {
        SegmentPosition::Only
    } else if index == 0 {
        SegmentPosition::First
    } else if index + 1 == len {
        SegmentPosition::Last
    } else {
        SegmentPosition::Middle
    }
}

/// The interaction state of a segment's button.
#[derive(Debug, Clone, Copy, PartialEq, Eq, Structural)]
pub enum ButtonStatus {
    /// The button can be pressed.
    Active,
    /// The button can be pressed and the pointer is over it.
    Hovered,
    /// The button is being pressed.
    Pressed,
    /// The button cannot be pressed.
    Disabled,
}

/// Which of a style's six looks a segment takes.
#[derive(Debug, Clone, Copy, PartialEq, Eq, Structural)]
pub enum SegmentState {
    Normal,
    Hovered,
    Pressed,
    Selected,
    SelectedHovered,
    Disabled,
}

/// The look of a segment that is `selected` or not and whose button is in `status`:
/// a disabled button looks disabled and a pressed one pressed, whether selected
/// or not; otherwise a selected segment looks selected (or selected and
/// hovered), and another one normal (or hovered).
pub fn segment_state(selected: bool, status: ButtonStatus) -> (state: SegmentState)
    ensures
        status == ButtonStatus::Disabled ==> state == SegmentState::Disabled,
        status == ButtonStatus::Pressed ==> state == SegmentState::Pressed,
        status == ButtonStatus::Hovered ==> state == (if selected {
            SegmentState::SelectedHovered
        } else {
            SegmentState::Hovered
        }),
        status == ButtonStatus::Active ==> state == (if selected {
            SegmentState::Selected
        } else {
            SegmentState::Normal
        }),
{
    match (selected, status) {
        (_, ButtonStatus::Disabled) => SegmentState::Disabled,
        (true, ButtonStatus::Hovered) => SegmentState::SelectedHovered,
        (true, ButtonStatus::Pressed) => SegmentState::Pressed,
        (true, _) => SegmentState::Selected,
        (false, ButtonStatus::Hovered) => SegmentState::Hovered,
        (false, ButtonStatus::Pressed) => SegmentState::Pressed,
        (false, _) => SegmentState::Normal,
    }
}

} // verus!
