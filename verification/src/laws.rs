use vstd::prelude::*;

use crate::error::NtoggleError;
use crate::segment::{position_in_row, SegmentPosition};
use crate::selection::{
    all_entries_valid, entry_is_invalid, is_first_invalid_entry, lemma_first_invalid_entry_exists,
    lemma_toggled_contains, same_values, strictly_increasing, toggled, SelectionView, MIN_STATES,
};

verus! {

/// A strictly increasing sequence repeats no value.
proof fn lemma_increasing_no_duplicates(s: Seq<usize>)
    requires
        strictly_increasing(s),
    ensures
        s.no_duplicates(),
{
    assert forall|a: int, b: int| 0 <= a < s.len() && 0 <= b < s.len() && a != b implies s[a]
        != s[b] by {
        if a < b {
            assert(s[a] < s[b]);
        } else {
            assert(s[b] < s[a]);
        }
    }
}

/// A strictly increasing sequence is no longer than any sequence with the same values.
proof fn lemma_increasing_len(n: Seq<usize>, t: Seq<usize>)
    requires
        strictly_increasing(n),
        same_values(n, t),
    ensures
        n.len() <= t.len(),
{
    lemma_increasing_no_duplicates(n);
    n.unique_seq_to_set();
    assert(n.to_set() =~= t.to_set());
    t.lemma_cardinality_of_set();
}

/// Two strictly increasing sequences with the same values are equal.
proof fn lemma_increasing_unique(a: Seq<usize>, b: Seq<usize>)
    requires
        strictly_increasing(a),
        strictly_increasing(b),
        same_values(a, b),
    ensures
        a == b,
    decreases a.len(),
{
    if a.len() == 0 {
        if b.len() > 0 {
            assert(b.contains(b[0]));
        }
        assert(a =~= b);
    } else {
        assert(a.contains(a[0]));
        if b.len() == 0 {
            assert(false);
        }
        assert(b.contains(b[0]));
        let j = choose|j: int| 0 <= j < a.len() && a[j] == b[0];
        let k = choose|k: int| 0 <= k < b.len() && b[k] == a[0];
        if j > 0 {
            assert(a[0] < a[j]);
            if k > 0 {
                assert(b[0] < b[k]);
            }
        }
        if k > 0 {
            assert(b[0] < b[k]);
        }
        assert(a[0] == b[0]);
        let ta = a.drop_first();
        let tb = b.drop_first();
        assert forall|x: usize| ta.contains(x) <==> tb.contains(x) by {
            if ta.contains(x) {
                let i = choose|i: int| 0 <= i < ta.len() && ta[i] == x;
                assert(a[i + 1] == x);
                assert(a[0] < a[i + 1]);
                assert(b.contains(x));
                let m = choose|m: int| 0 <= m < b.len() && b[m] == x;
                if m == 0 {
                    assert(false);
                }
                assert(tb[m - 1] == x);
            }
            if tb.contains(x) {
                let i = choose|i: int| 0 <= i < tb.len() && tb[i] == x;
                assert(b[i + 1] == x);
                assert(b[0] < b[i + 1]);
                assert(a.contains(x));
                let m = choose|m: int| 0 <= m < a.len() && a[m] == x;
                if m == 0 {
                    assert(false);
                }
                assert(ta[m - 1] == x);
            }
        }
        lemma_increasing_unique(ta, tb);
        assert forall|i: int| 0 <= i < a.len() implies a[i] == b[i] by {
            if i > 0 {
                assert(a[i] == ta[i - 1]);
                assert(b[i] == tb[i - 1]);
            }
        }
        assert(a =~= b);
    }
}

/// Removing the first occurrence of `index` from a sequence without repeats leaves
/// What a successful validation promises: the toggle has at least two segments,
/// every selected index names one of them, a multiple selection repeats no index
/// and keeps to its limit.
pub proof fn valid_selection_names_segments(selection: SelectionView, len: usize)
    requires
        selection.validation(len) == Ok::<(), NtoggleError>(()),
    ensures
        len >= MIN_STATES,
        forall|x: usize| selection.contains(x) ==> x < len,
        selection matches SelectionView::Multiple { selected, max_selected } ==> {
            &&& selected.no_duplicates()
            &&& max_selected matches Some(max) ==> 0 < max && selected.len() <= max
        },
{
    if let SelectionView::Multiple { selected, max_selected } = selection {
        if !all_entries_valid(selected, len) {
            assert(false);
        }
        assert forall|x: usize| selected.contains(x) implies x < len by {
            let k = choose|k: int| 0 <= k < selected.len() && selected[k] == x;
            assert(!entry_is_invalid(selected, k, len));
        }
        assert forall|a: int, b: int|
            0 <= a < selected.len() && 0 <= b < selected.len() && a != b implies selected[a]
            != selected[b] by {
            if a < b {
                assert(!entry_is_invalid(selected, b, len));
                assert(selected.take(b)[a] == selected[a]);
            } else {
                assert(!entry_is_invalid(selected, a, len));
                assert(selected.take(a)[b] == selected[b]);
            }
        }
    }
}

/// Every error that validation reports is borne out by the selection: too few
/// segments are fewer than the minimum, an index out of bounds is selected and
/// names no segment, a duplicate index is selected at two places, and a
/// selection over its limit holds more indices than the limit.
pub proof fn reported_error_is_genuine(selection: SelectionView, len: usize)
    requires
        selection matches SelectionView::Multiple { selected, .. } ==> selected.len()
            <= usize::MAX,
    ensures
        match selection.validation(len) {
            Ok(()) => true,
            Err(NtoggleError::TooFewStates { min, actual }) => min == MIN_STATES && actual == len
                && len < MIN_STATES,
            Err(NtoggleError::SelectionOutOfBounds { index, len: l }) => {
                &&& l == len
                &&& len <= index
                &&& selection.contains(index)
            },
            Err(NtoggleError::DuplicateSelection { index }) => selection matches
                SelectionView::Multiple { selected, .. } && exists|a: int, b: int|
                0 <= a < b < selected.len() && selected[a] == index && selected[b] == index,
            Err(NtoggleError::MaxSelectedZero) => selection matches SelectionView::Multiple {
                max_selected,
                ..
            } && max_selected == Some(0usize),
            Err(NtoggleError::TooManySelected { max, actual }) => selection matches
                SelectionView::Multiple { selected, max_selected } && max_selected == Some(max)
                && actual == selected.len() && max < actual,
        },
{
    if let SelectionView::Multiple { selected, max_selected } = selection {
        if len >= MIN_STATES && max_selected != Some(0usize) && !all_entries_valid(selected, len) {
            lemma_first_invalid_entry_exists(selected, len);
            let k = choose|k: int| is_first_invalid_entry(selected, k, len);
            assert(selected.contains(selected[k]));
            if selected[k] < len {
                let a = choose|a: int| 0 <= a < selected.take(k).len() && selected.take(k)[a]
                    == selected[k];
                assert(selected[a] == selected.take(k)[a]);
                assert(0 <= a < k < selected.len() && selected[a] == selected[k]);
            }
        }
    }
}

/// Pressing a segment that the toggle lets be pressed (one that is selected, or
/// one that may still be added) turns a valid selection into a valid selection.
pub proof fn press_keeps_selection_valid(
    selection: SelectionView,
    len: usize,
    index: usize,
    next: SelectionView,
)
    requires
        selection.validation(len) == Ok::<(), NtoggleError>(()),
        index < len,
        selection.contains(index) || selection.can_add_more(),
        selection.press_yields(index, next),
    ensures
        next.validation(len) == Ok::<(), NtoggleError>(()),
{
    valid_selection_names_segments(selection, len);
    if let SelectionView::Multiple { selected, max_selected } = selection {
        let n = next->selected;
        let t = toggled(selected, index);
        lemma_toggled_contains(selected, index);
        lemma_increasing_no_duplicates(n);
        assert forall|k: int| 0 <= k < n.len() implies !entry_is_invalid(n, k, len) by {
            assert(n.contains(n[k]));
            assert(t.contains(n[k]));
            if selected.contains(n[k]) {
                assert(selection.contains(n[k]));
            }
            if n.take(k).contains(n[k]) {
                let j = choose|j: int| 0 <= j < n.take(k).len() && n.take(k)[j] == n[k];
                assert(n.take(k)[j] == n[j]);
                assert(n[j] < n[k]);
            }
        }
        lemma_increasing_len(n, t);
        if selected.contains(index) {
            selected.index_of_first_ensures(index);
        }
        if !all_entries_valid(n, len) {
            assert(false);
        }
    }
}

/// Pressing a segment of a multiple selection that repeats no index flips whether
/// that segment is selected, and leaves every other segment as it was.
pub proof fn press_toggles_only_pressed_segment(
    selection: SelectionView,
    index: usize,
    next: SelectionView,
)
    requires
        selection matches SelectionView::Multiple { selected, .. } && selected.no_duplicates(),
        selection.press_yields(index, next),
    ensures
        next.contains(index) == !selection.contains(index),
        forall|x: usize| x != index ==> (next.contains(x) == selection.contains(x)),
{
    let selected = selection->selected;
    lemma_toggled_contains(selected, index);
}

/// Pressing the same segment twice brings a multiple selection that holds its
/// indices in increasing order (as every press leaves it) back to itself.
pub proof fn press_twice_restores_selection(
    selection: SelectionView,
    index: usize,
    once: SelectionView,
    twice: SelectionView,
)
    requires
        selection matches SelectionView::Multiple { selected, .. } && strictly_increasing(
            selected,
        ),
        selection.press_yields(index, once),
        once.press_yields(index, twice),
    ensures
        twice == selection,
{
    let selected = selection->selected;
    lemma_increasing_no_duplicates(selected);
    press_toggles_only_pressed_segment(selection, index, once);
    let n1 = once->selected;
    lemma_increasing_no_duplicates(n1);
    press_toggles_only_pressed_segment(once, index, twice);
    let n2 = twice->selected;
    assert forall|x: usize| n2.contains(x) <==> selected.contains(x) by {
        assert(twice.contains(x) == n2.contains(x));
        assert(once.contains(x) == n1.contains(x));
        assert(selection.contains(x) == selected.contains(x));
    }
    lemma_increasing_unique(n2, selected);
}

/// Pressing a segment has one outcome: two selections that both follow from
/// pressing segment `index` of the same selection are equal.
pub proof fn press_result_is_unique(
    selection: SelectionView,
    index: usize,
    first: SelectionView,
    second: SelectionView,
)
    requires
        selection.press_yields(index, first),
        selection.press_yields(index, second),
    ensures
        first == second,
{
    if let SelectionView::Multiple { selected, .. } = selection {
        let t = toggled(selected, index);
        let a = first->selected;
        let b = second->selected;
        assert forall|x: usize| a.contains(x) <==> b.contains(x) by {
            assert(a.contains(x) <==> t.contains(x));
            assert(b.contains(x) <==> t.contains(x));
        }
        lemma_increasing_unique(a, b);
    }
}

/// Pressing any segment of a single selection selects exactly that segment.
pub proof fn single_press_selects_pressed_segment(
    selected: usize,
    index: usize,
    next: SelectionView,
)
    requires
        SelectionView::Single(selected).press_yields(index, next),
    ensures
        next == SelectionView::Single(index),
        next.contains(index),
        forall|x: usize| next.contains(x) ==> x == index,
{
}

/// A single selection holds exactly its own index; a multiple selection holds
/// exactly the indices in its list.
pub proof fn selection_contains_its_indices(selection: SelectionView, x: usize)
    ensures
        selection matches SelectionView::Single(s) ==> (selection.contains(x) <==> x == s),
        selection matches SelectionView::Single(s) ==> selection.contains(s),
        selection matches SelectionView::Multiple { selected, .. } ==> (selection.contains(x)
            <==> exists|k: int| 0 <= k < selected.len() && selected[k] == x),
{
}

/// A single or unlimited selection can always take another segment; a limited
/// one can exactly while it holds fewer indices than its limit.
pub proof fn can_add_more_exactly_below_limit(selection: SelectionView)
    ensures
        selection matches SelectionView::Single(_) ==> selection.can_add_more(),
        selection matches SelectionView::Multiple { max_selected: None, .. }
            ==> selection.can_add_more(),
        selection matches SelectionView::Multiple { selected, max_selected: Some(max) }
            ==> (selection.can_add_more() <==> selected.len() < max),
        selection matches SelectionView::Multiple { selected, max_selected: Some(max) }
            && selected.len() == 0 && max > 0 ==> selection.can_add_more(),
{
}

/// In a row of one segment it stands alone; in a longer row the first segment
/// is first, the last one is last, and every segment between them is in the middle.
pub proof fn row_positions(len: int)
    requires
        len >= 1,
    ensures
        forall|i: int| len == 1 ==> position_in_row(i, len) == SegmentPosition::Only,
        len >= 2 ==> position_in_row(0, len) == SegmentPosition::First,
        len >= 2 ==> position_in_row(len - 1, len) == SegmentPosition::Last,
        forall|i: int| len >= 2 && 0 < i < len - 1 ==> position_in_row(i, len)
            == SegmentPosition::Middle,
{
}

} // verus!
