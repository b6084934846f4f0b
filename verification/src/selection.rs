use vstd::prelude::*;

use crate::error::NtoggleError;
use crate::segment::{position_in_row, segment_position, SegmentPosition};

verus! {

/// The least number of segments a toggle can have.
pub const MIN_STATES: usize = 2;

/// The most segments a multiple selection may hold. It is never zero.
#[derive(Debug, Clone, Copy, PartialEq, Eq)]
pub struct SelectionLimit {
    value: usize,
}

impl SelectionLimit {
    #[verifier::type_invariant]
    spec fn is_positive(self) -> bool {
        self.value > 0
    }

    /// A limit of `value` segments, or `None` where `value` is zero.
    pub fn new(value: usize) -> (limit: Option<SelectionLimit>)
        ensures
            limit is Some <==> value > 0,
            limit matches Some(l) ==> l@ == value,
    {
        if value == 0 {
            None
        } else {
            Some(SelectionLimit { value })
        }
    }

    /// The number of segments this limit allows.
    pub fn get(&self) -> (value: usize)
        ensures
            value == self@,
            value > 0,
    {
        proof {
            use_type_invariant(self);
        }
        self.value
    }
}

impl View for SelectionLimit {
    type V = usize;

    closed spec fn view(&self) -> usize {
        self.value
    }
}

/// Which segments of a toggle are selected.
#[derive(Debug, Clone, PartialEq, Eq)]
pub enum Selection {
    /// Exactly one segment is selected.
    Single(usize),
    /// Any number of segments are selected, up to an optional limit.
    Multiple { selected: Vec<usize>, max_selected: Option<SelectionLimit> },
}

/// What the toggle draws for one of its segments, and what pressing it does.
pub struct SegmentPlan {
    /// The segment is selected.
    pub selected: bool,
    /// The segment's button cannot be pressed.
    pub disabled: bool,
    /// The selection that pressing the segment hands on.
    pub next: Selection,
    /// Where the segment stands in the row.
    pub position: SegmentPosition,
}

/// The mathematical value of a [`Selection`].
pub enum SelectionView {
    Single(usize),
    Multiple { selected: Seq<usize>, max_selected: Option<usize> },
}

impl View for Selection {
    type V = SelectionView;

    open spec fn view(&self) -> SelectionView {
        match self {
            Selection::Single(index) => SelectionView::Single(*index),
            Selection::Multiple { selected, max_selected } => SelectionView::Multiple {
                selected: selected@,
                max_selected: match max_selected {
                    Some(limit) => Some(limit@),
                    None => None,
                },
            },
        }
    }
}


/// Entry `k` of `selected` is out of range for `len` segments, or repeats an earlier entry.
pub open spec fn entry_is_invalid(selected: Seq<usize>, k: int, len: usize) -> bool {
    selected[k] >= len || selected.take(k).contains(selected[k])
}

/// Every entry of `selected` names one of `len` segments, and none repeats.
pub open spec fn all_entries_valid(selected: Seq<usize>, len: usize) -> bool {
    forall|k: int| 0 <= k < selected.len() ==> !entry_is_invalid(selected, k, len)
}

/// Entry `k` is the first invalid entry of `selected`.
pub open spec fn is_first_invalid_entry(selected: Seq<usize>, k: int, len: usize) -> bool {
    &&& 0 <= k < selected.len()
    &&& entry_is_invalid(selected, k, len)
    &&& forall|j: int| 0 <= j < k ==> !entry_is_invalid(selected, j, len)
}

/// Where some entry is invalid, there is a first invalid one.
pub proof fn lemma_first_invalid_entry_exists(selected: Seq<usize>, len: usize)
    requires
        !all_entries_valid(selected, len),
    ensures
        exists|k: int| is_first_invalid_entry(selected, k, len),
    decreases selected.len(),
{
    let k = choose|k: int| 0 <= k < selected.len() && entry_is_invalid(selected, k, len);
    if forall|j: int| 0 <= j < k ==> !entry_is_invalid(selected, j, len) {
        assert(is_first_invalid_entry(selected, k, len));
    } else {
        let prefix = selected.take(k);
        assert forall|j: int| 0 <= j < prefix.len() implies entry_is_invalid(prefix, j, len)
            == entry_is_invalid(selected, j, len) by {
            assert(prefix.take(j) =~= selected.take(j));
        }
        lemma_first_invalid_entry_exists(prefix, len);
        let k2 = choose|k2: int| is_first_invalid_entry(prefix, k2, len);
        assert(is_first_invalid_entry(selected, k2, len));
    }
}

/// The first invalid entry is unique.
pub proof fn lemma_first_invalid_entry_unique(selected: Seq<usize>, k1: int, k2: int, len: usize)
    requires
        is_first_invalid_entry(selected, k1, len),
        is_first_invalid_entry(selected, k2, len),
    ensures
        k1 == k2,
{
}

/// Each entry of `s` is smaller than the next, so no value occurs twice.
pub open spec fn strictly_increasing(s: Seq<usize>) -> bool {
    forall|a: int, b: int| 0 <= a < b < s.len() ==> s[a] < s[b]
}

/// `a` and `b` hold the same values, each perhaps a different number of times.
pub open spec fn same_values(a: Seq<usize>, b: Seq<usize>) -> bool {
    forall|x: usize| a.contains(x) <==> b.contains(x)
}

/// `selected` with `index` toggled: its first occurrence removed where it
/// occurs, and `index` appended where it does not.
pub open spec fn toggled(selected: Seq<usize>, index: usize) -> Seq<usize> {
    if selected.contains(index) {
        selected.remove_value(index)
    } else {
        selected.push(index)
    }
}

/// A value occurs in `s.push(v)` exactly where it occurs in `s` or is `v`.
pub proof fn lemma_push_contains(s: Seq<usize>, v: usize)
    ensures
        forall|x: usize| s.push(v).contains(x) <==> (s.contains(x) || x == v),
{
    assert forall|x: usize| s.push(v).contains(x) <==> (s.contains(x) || x == v) by {
        if s.contains(x) {
            let k = choose|k: int| 0 <= k < s.len() && s[k] == x;
            assert(s.push(v)[k] == x);
        }
        if x == v {
            assert(s.push(v)[s.len() as int] == x);
        }
        if s.push(v).contains(x) {
            let k = choose|k: int| 0 <= k < s.len() + 1 && s.push(v)[k] == x;
            if k < s.len() {
                assert(s[k] == x);
            }
        }
    }
}

/// Inserting `value` into a strictly increasing sequence just before its first
/// entry above `value` keeps it strictly increasing, and adds `value` to its values.
pub proof fn lemma_insert_in_order(s: Seq<usize>, p: int, value: usize)
    requires
        strictly_increasing(s),
        0 <= p <= s.len(),
        forall|j: int| 0 <= j < p ==> s[j] < value,
        p < s.len() ==> value < s[p],
    ensures
        strictly_increasing(s.insert(p, value)),
        same_values(s.insert(p, value), s.push(value)),
{
    let t = s.insert(p, value);
    s.insert_ensures(p, value);
    assert forall|a: int, b: int| 0 <= a < b < t.len() implies t[a] < t[b] by {
        if b < p {
        } else if b == p {
        } else if a < p {
            assert(s[a] < s[b - 1]);
        } else if a == p {
            assert(s[p] <= s[b - 1]);
        } else {
            assert(s[a - 1] < s[b - 1]);
        }
    }
    lemma_push_contains(s, value);
    assert forall|x: usize| t.contains(x) <==> s.push(value).contains(x) by {
        if t.contains(x) {
            let k = choose|k: int| 0 <= k < t.len() && t[k] == x;
            if k < p {
                assert(s[k] == x);
            } else if k > p {
                assert(s[k - 1] == x);
            }
        }
        if s.contains(x) {
            let k = choose|k: int| 0 <= k < s.len() && s[k] == x;
            if k < p {
                assert(t[k] == x);
            } else {
                assert(t[k + 1] == x);
            }
        }
        if x == value {
            assert(t[p] == x);
        }
    }
}

/// Toggling `index` leaves every other value where it was, adds `index` where it
/// was missing, and takes it out where it occurred once.
pub proof fn lemma_toggled_contains(selected: Seq<usize>, index: usize)
    ensures
        forall|x: usize| x != index ==> (toggled(selected, index).contains(x)
            <==> selected.contains(x)),
        !selected.contains(index) ==> toggled(selected, index).contains(index),
        selected.no_duplicates() && selected.contains(index) ==> !toggled(selected, index).contains(
            index,
        ),
{
    lemma_push_contains(selected, index);
    if selected.contains(index) {
        selected.index_of_first_ensures(index);
        let q = selected.index_of_first(index).unwrap();
        let r = selected.remove(q);
        assert forall|x: usize| r.contains(x) implies selected.contains(x) by {
            let i = choose|i: int| 0 <= i < r.len() && r[i] == x;
            if i < q {
                assert(selected[i] == x);
            } else {
                assert(selected[i + 1] == x);
            }
        }
        assert forall|x: usize| x != index && selected.contains(x) implies r.contains(x) by {
            let i = choose|i: int| 0 <= i < selected.len() && selected[i] == x;
            if i < q {
                assert(r[i] == x);
            } else {
                assert(r[i - 1] == x);
            }
        }
        if selected.no_duplicates() && r.contains(index) {
            let i = choose|i: int| 0 <= i < r.len() && r[i] == index;
            if i < q {
                assert(selected[i] == index);
            } else {
                assert(selected[i + 1] == index);
            }
        }
    }
}

impl SelectionView {
    /// Whether segment `index` is selected.
    pub open spec fn contains(self, index: usize) -> bool {
        match self {
            SelectionView::Single(selected) => selected == index,
            SelectionView::Multiple { selected, .. } => selected.contains(index),
        }
    }

    /// Whether a segment that is not selected yet may still be added.
    pub open spec fn can_add_more(self) -> bool {
        match self {
            SelectionView::Single(_) => true,
            SelectionView::Multiple { selected, max_selected } => match max_selected {
                None => true,
                Some(max) => selected.len() < max,
            },
        }
    }

    /// `next` is the selection that pressing segment `index` leads to: a single
    /// selection moves to `index`; a multiple selection has `index` toggled, then
    /// holds its values in increasing order, each once, and keeps its limit.
    pub open spec fn press_yields(self, index: usize, next: SelectionView) -> bool {
        match self {
            SelectionView::Single(_) => next == SelectionView::Single(index),
            SelectionView::Multiple { selected, max_selected } => match next {
                SelectionView::Multiple { selected: next_selected, max_selected: next_max } => {
                    &&& next_max == max_selected
                    &&& strictly_increasing(next_selected)
                    &&& same_values(next_selected, toggled(selected, index))
                },
                SelectionView::Single(_) => false,
            },
        }
    }

    /// The outcome of validating this selection for a toggle of `len` segments.
    pub open spec fn validation(self, len: usize) -> Result<(), NtoggleError> {
        if len < MIN_STATES {
            Err(NtoggleError::TooFewStates { min: MIN_STATES, actual: len })
        } else {
            match self {
                SelectionView::Single(index) => if index < len {
                    Ok(())
                } else {
                    Err(NtoggleError::SelectionOutOfBounds { index, len })
                },
                SelectionView::Multiple { selected, max_selected } => if max_selected == Some(
                    0usize,
                ) {
                    Err(NtoggleError::MaxSelectedZero)
                } else if !all_entries_valid(selected, len) {
                    let k = choose|k: int| is_first_invalid_entry(selected, k, len);
                    if selected[k] >= len {
                        Err(NtoggleError::SelectionOutOfBounds { index: selected[k], len })
                    } else {
                        Err(NtoggleError::DuplicateSelection { index: selected[k] })
                    }
                } else {
                    match max_selected {
                        Some(max) => if selected.len() > max {
                            Err(NtoggleError::TooManySelected { max, actual: selected.len() as usize })
                        } else {
                            Ok(())
                        },
                        None => Ok(()),
                    }
                },
            }
        }
    }
}

impl Selection {
    /// A selection of segment `index` alone.
    pub fn single(index: usize) -> (selection: Selection)
        ensures
            selection@ == SelectionView::Single(index),
    {
        Selection::Single(index)
    }

    /// A selection of the segments in `selected`, with no limit.
    pub fn multiple(selected: Vec<usize>) -> (selection: Selection)
        ensures
            selection@ == (SelectionView::Multiple { selected: selected@, max_selected: None }),
    {
        Selection::Multiple { selected, max_selected: None }
    }

    /// A selection of the segments in `selected`, limited to `max_selected` segments.
    pub fn multiple_limited(selected: Vec<usize>, max_selected: SelectionLimit) -> (selection:
        Selection)
        ensures
            selection@ == (SelectionView::Multiple {
                selected: selected@,
                max_selected: Some(max_selected@),
            }),
    {
        Selection::Multiple { selected, max_selected: Some(max_selected) }
    }

    /// Whether segment `index` is selected.
    pub fn contains(&self, index: usize) -> (found: bool)
        ensures
            found == self@.contains(index),
            self matches Selection::Single(s) ==> (found <==> index == s),
            self matches Selection::Multiple { selected, .. } ==> (found <==> selected@.contains(
                index,
            )),
    {
        match self {
            Selection::Single(selected) => *selected == index,
            Selection::Multiple { selected, .. } => vec_contains(selected, index),
        }
    }

    /// Whether a segment that is not selected yet may still be added.
    pub fn can_add_more(&self) -> (more: bool)
        ensures
            more == self@.can_add_more(),
            self matches Selection::Single(_) ==> more,
            self matches Selection::Multiple { max_selected: None, .. } ==> more,
            self matches Selection::Multiple { selected, max_selected: Some(max) } ==> (more
                <==> selected.len() < max@),
    {
        match self {
            Selection::Single(_) => true,
            Selection::Multiple { selected, max_selected } => match max_selected {
                None => true,
                Some(max) => selected.len() < max.get(),
            },
        }
    }

    /// The selection after segment `index` is pressed.
    pub fn next_after_press(&self, index: usize) -> (next: Selection)
        ensures
            self@.press_yields(index, next@),
            self matches Selection::Single(_) ==> next@ == SelectionView::Single(index),
            self matches Selection::Multiple { max_selected, .. } ==> next matches
                Selection::Multiple { max_selected: next_max, .. } && next_max == max_selected,
            self matches Selection::Multiple { selected, .. } ==> next matches Selection::Multiple {
                selected: next_selected,
                ..
            } && {
                &&& forall|a: int, b: int| 0 <= a < b < next_selected.len() ==> next_selected@[a]
                    < next_selected@[b]
                &&& forall|x: usize| x != index ==> (next_selected@.contains(x)
                    <==> selected@.contains(x))
                &&& !selected@.contains(index) ==> next_selected@.contains(index)
                &&& selected@.no_duplicates() && selected@.contains(index)
                    ==> !next_selected@.contains(index)
            },
    {
        match self {
            Selection::Single(_) => Selection::Single(index),
            Selection::Multiple { selected, max_selected } => {
                let mut next = selected.clone();
                proof {
                    assert(next@ =~= selected@);
                }
                match vec_position(&next, index) {
                    Some(position) => {
                        proof {
                            selected@.index_of_first_ensures(index);
                        }
                        next.remove(position);
                    },
                    None => {
                        next.push(index);
                    },
                }
                let next = sorted_distinct(&next);
                proof {
                    lemma_toggled_contains(selected@, index);
                }
                Selection::Multiple { selected: next, max_selected: *max_selected }
            },
        }
    }

    /// How segment `index` of a row of `len` segments is drawn under this selection:
    /// whether it is selected, whether its button is disabled (it is not selected
    /// and no more segments may be added), the selection that pressing it hands
    /// on, and its position in the row.
    pub fn plan_segment(&self, index: usize, len: usize) -> (plan: SegmentPlan)
        requires
            index < len,
        ensures
            plan.selected == self@.contains(index),
            plan.disabled == (!plan.selected && !self@.can_add_more()),
            self matches Selection::Single(s) ==> {
                &&& plan.selected == (index == s)
                &&& !plan.disabled
                &&& plan.next@ == SelectionView::Single(index)
            },
            self matches Selection::Multiple { selected, max_selected } ==> {
                &&& plan.selected == selected@.contains(index)
                &&& plan.disabled == (!selected@.contains(index) && (max_selected matches Some(
                    max) && selected.len() >= max@))
            },
            self@.press_yields(index, plan.next@),
            plan.position == position_in_row(index as int, len as int),
    {
        let selected = self.contains(index);
        let disabled = !selected && !self.can_add_more();
        let next = self.next_after_press(index);
        let position = segment_position(index, len);
        SegmentPlan { selected, disabled, next, position }
    }

    /// Checks that this selection is acceptable for a toggle of `len` segments:
    /// there are at least two segments, every selected index names a segment,
    /// no index is selected twice, and a limited selection keeps to its limit.
    pub fn validate(&self, len: usize) -> (result: Result<(), NtoggleError>)
        ensures
            result == self@.validation(len),
            len < 2 ==> result == Err::<(), NtoggleError>(
                NtoggleError::TooFewStates { min: 2, actual: len },
            ),
            len >= 2 ==> match self {
                Selection::Multiple { selected, max_selected } => (result is Ok <==> {
                    &&& forall|k: int| 0 <= k < selected.len() ==> selected@[k] < len
                    &&& selected@.no_duplicates()
                    &&& match max_selected {
                        Some(max) => selected.len() <= max@,
                        None => true,
                    }
                }),
                Selection::Single(index) => (result is Ok <==> *index < len),
            },
    {
        if len < MIN_STATES {
            return Err(NtoggleError::TooFewStates { min: MIN_STATES, actual: len });
        }
        match self {
            Selection::Single(index) => validate_index(*index, len),
            Selection::Multiple { selected, max_selected } => {
                if let Some(max) = max_selected {
                    if max.get() == 0 {
                        return Err(NtoggleError::MaxSelectedZero);
                    }
                }
                let mut seen: Vec<usize> = Vec::with_capacity(selected.len());
                let mut i: usize = 0;
                #[verifier::loop_isolation(false)]
                while i < selected.len()
                    invariant
                        i <= selected.len(),
                        seen@ == selected@.take(i as int),
                        forall|j: int| 0 <= j < i ==> !entry_is_invalid(selected@, j, len),
                        max_selected matches Some(m) ==> m@ > 0,
                    decreases selected.len() - i,
                {
                    let index = selected[i];
                    match validate_index(index, len) {
                        Ok(()) => {},
                        Err(error) => {
                            proof {
                                assert(selected@[i as int] >= len);
                                assert(is_first_invalid_entry(selected@, i as int, len));
                                let k = choose|k: int| is_first_invalid_entry(selected@, k, len);
                                lemma_first_invalid_entry_unique(selected@, i as int, k, len);
                            }
                            return Err(error);
                        },
                    }
                    if vec_contains(&seen, index) {
                        proof {
                            let j = choose|j: int| 0 <= j < seen@.len() && seen@[j] == index;
                            assert(selected@[j] == seen@[j]);
                            assert(!selected@.no_duplicates());
                            assert(is_first_invalid_entry(selected@, i as int, len));
                            let k = choose|k: int| is_first_invalid_entry(selected@, k, len);
                            lemma_first_invalid_entry_unique(selected@, i as int, k, len);
                        }
                        return Err(NtoggleError::DuplicateSelection { index });
                    }
                    seen.push(index);
                    proof {
                        assert(selected@.take(i + 1) =~= selected@.take(i as int).push(index));
                    }
                    i += 1;
                }
                if let Some(max_selected) = max_selected {
                    let max = max_selected.get();
                    if selected.len() > max {
                        return Err(NtoggleError::TooManySelected { max, actual: selected.len() });
                    }
                }
                proof {
                    assert forall|a: int, b: int|
                        0 <= a < selected.len() && 0 <= b < selected.len() && a != b implies selected@[a]
                        != selected@[b] by {
                        if a < b {
                            assert(!entry_is_invalid(selected@, b, len));
                            assert(selected@.take(b)[a] == selected@[a]);
                        } else {
                            assert(!entry_is_invalid(selected@, a, len));
                            assert(selected@.take(a)[b] == selected@[b]);
                        }
                    }
                    assert forall|k: int| 0 <= k < selected.len() implies selected@[k] < len by {
                        assert(!entry_is_invalid(selected@, k, len));
                    }
                }
                Ok(())
            },
        }
    }
}

/// Whether `value` occurs in `items`.
fn vec_contains(items: &Vec<usize>, value: usize) -> (found: bool)
    ensures
        found == items@.contains(value),
{
    let mut i: usize = 0;
    while i < items.len()
        invariant
            i <= items.len(),
            forall|j: int| 0 <= j < i ==> items@[j] != value,
        decreases items.len() - i,
    {
        if items[i] == value {
            return true;
        }
        i += 1;
    }
    false
}

/// The first position of `value` in `items`, if it occurs there.
fn vec_position(items: &Vec<usize>, value: usize) -> (position: Option<usize>)
    ensures
        match position {
            Some(p) => {
                &&& p < items.len()
                &&& items@[p as int] == value
                &&& forall|j: int| 0 <= j < p ==> items@[j] != value
            },
            None => !items@.contains(value),
        },
{
    let mut i: usize = 0;
    while i < items.len()
        invariant
            i <= items.len(),
            forall|j: int| 0 <= j < i ==> items@[j] != value,
        decreases items.len() - i,
    {
        if items[i] == value {
            return Some(i);
        }
        i += 1;
    }
    None
}

/// The values of `items` in increasing order, each once.
fn sorted_distinct(items: &Vec<usize>) -> (sorted: Vec<usize>)
    ensures
        strictly_increasing(sorted@),
        same_values(sorted@, items@),
{
    let mut sorted: Vec<usize> = Vec::new();
    let mut i: usize = 0;
    while i < items.len()
        invariant
            i <= items.len(),
            strictly_increasing(sorted@),
            same_values(sorted@, items@.take(i as int)),
        decreases items.len() - i,
    {
        let value = items[i];
        let mut p: usize = 0;
        while p < sorted.len() && sorted[p] < value
            invariant
                p <= sorted.len(),
                forall|j: int| 0 <= j < p ==> sorted@[j] < value,
            decreases sorted.len() - p,
        {
            p += 1;
        }
        let ghost before = sorted@;
        proof {
            assert(items@.take(i + 1) =~= items@.take(i as int).push(value));
            lemma_push_contains(items@.take(i as int), value);
            lemma_push_contains(before, value);
        }
        if p == sorted.len() || sorted[p] != value {
            proof {
                lemma_insert_in_order(before, p as int, value);
            }
            sorted.insert(p, value);
        } else {
            proof {
                assert(before[p as int] == value);
            }
        }
        proof {
            assert forall|x: usize| sorted@.contains(x) <==> items@.take(i + 1).contains(x) by {
                assert(items@.take(i + 1).contains(x) <==> (items@.take(i as int).contains(x) || x
                    == value));
                assert(before.contains(x) <==> items@.take(i as int).contains(x));
            }
        }
        i += 1;
    }
    proof {
        assert(items@.take(items.len() as int) =~= items@);
    }
    sorted
}

/// Checks that `index` names one of `len` segments.
pub fn validate_index(index: usize, len: usize) -> (result: Result<(), NtoggleError>)
    ensures
        result == (if index < len {
            Ok(())
        } else {
            Err(NtoggleError::SelectionOutOfBounds { index, len })
        }),
{
    if index >= len {
        Err(NtoggleError::SelectionOutOfBounds { index, len })
    } else {
        Ok(())
    }
}

} // verus!
