//! Selection logic of a segmented toggle ("n-toggle") widget: which of `n`
//! segments are selected, what pressing a segment does, whether a selection is
//! acceptable for a given number of segments, and how each segment is drawn.

pub mod error;
pub mod laws;
pub mod segment;
pub mod selection;

pub use error::NtoggleError;
pub use segment::{segment_position, segment_state, ButtonStatus, SegmentPosition, SegmentState};
pub use selection::{SegmentPlan, Selection, SelectionLimit, SelectionView};
