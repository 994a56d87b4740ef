use vstd::prelude::*;

use std::collections::VecDeque;

use crate::items::Item;

verus! {

/// How items are being chosen.
#[derive(Clone, Copy, Debug, PartialEq, Eq, Structural)]
pub enum SelectionMode {
    SelectingItems,
}

/// Navigation over a paged list in which a range of items can be selected.
pub trait ListSelection {
    /// Whether the bounds and the bookkeeping that the operations rely on hold.
    spec fn well_formed(&self) -> bool;

    /// The number of lines on a page.
    spec fn page_size(&self) -> int;

    /// The focused line, counted from the top of the page.
    spec fn focused_line(&self) -> int;

    fn get_page_number(&self) -> i32
        requires
            self.well_formed(),
            self.page_size() > 0,
    ;

    fn get_total_pages(&self) -> i32
        requires
            self.well_formed(),
    ;

    fn get_start_index(&self) -> i32;

    fn get_container_index(&self) -> Option<i32>;

    fn get_true_index(&self) -> i32;

    fn get_focused_item(&self) -> Option<&Item>
        requires
            self.well_formed(),
    ;

    fn get_end_of_page_index(&mut self) -> i32
        requires
            old(self).well_formed(),
    ;

    fn get_items(&self) -> &Vec<Item>;

    fn get_items_mut(&mut self) -> &mut Vec<Item>;

    fn get_selected_items(&self) -> VecDeque<Item>;

    fn is_selecting(&self) -> bool;

    fn toggle_select(&mut self)
        requires
            old(self).well_formed(),
    ;

    fn cancel_selection(&mut self);

    fn is_selected(&self, index: i32) -> bool;

    fn is_focused(&self, index: i32) -> bool
        requires
            self.well_formed(),
    ;

    fn select(&mut self, index: i32)
        requires
            old(self).well_formed(),
    ;

    fn deselect(&mut self, index: i32)
        requires
            old(self).well_formed(),
    ;

    fn page_up(&mut self)
        requires
            old(self).well_formed(),
            old(self).page_size() > 0,
    ;

    fn page_down(&mut self)
        requires
            old(self).well_formed(),
            old(self).page_size() > 0,
    ;

    fn move_up(&mut self)
        requires
            old(self).well_formed(),
            old(self).page_size() > 0 || old(self).focused_line() > 0,
    ;

    fn move_down(&mut self)
        requires
            old(self).well_formed(),
    ;
}

/// A paged list of items in which a range of items can be selected. The list
/// shows `page_line_count` lines from `start_index`; the focused line is
/// `current_index` on the page. While selecting, the selection runs from the
/// pivot (the first selected index) to the focused container index.
#[derive(Clone, Debug)]
pub struct ItemListSelection {
    selection_mode: SelectionMode,
    start_index: i32,
    pivot_index: Option<i32>,
    current_index: i32,
    true_index: i32,
    previous_container_index: Option<i32>,
    container_index: Option<i32>,
    selecting_items: bool,
    selected_indices: VecDeque<i32>,
    selected_items: VecDeque<Item>,
    items: Vec<Item>,
    pub page_line_count: i32,
}

/// The state of an item list selection.
pub struct SelectionView {
    pub start_index: int,
    pub pivot_index: Option<int>,
    pub current_index: int,
    pub true_index: int,
    pub previous_container_index: Option<int>,
    pub container_index: Option<int>,
    pub selecting_items: bool,
    pub selected_indices: Seq<int>,
    pub selected_items: Seq<Item>,
    pub items: Seq<Item>,
    pub page_line_count: int,
}

/// A sequence of `i32` read as integers.
pub open spec fn ints(s: Seq<i32>) -> Seq<int> {
    s.map_values(|i: i32| i as int)
}

pub open spec fn opt_int(o: Option<i32>) -> Option<int> {
    match o {
        Some(v) => Some(v as int),
        None => None,
    }
}

/// The largest list this selection handles (2^27 items), which also bounds the
/// page size: positions up to four lists long, plus a line index, stay within
/// `i32`.
pub open spec fn max_items() -> int {
    0x8000000
}

/// A bound the positions and indices stay within (2^29, a quarter of the
/// `i32` range, so that sums of two of them and a step fit in an `i32`).
pub open spec fn index_bound() -> int {
    0x20000000
}

pub open spec fn in_bound(v: int, b: int) -> bool {
    -b <= v <= b
}

pub open spec fn opt_in_bound(v: Option<int>, b: int) -> bool {
    match v {
        Some(x) => in_bound(x, b),
        None => true,
    }
}

impl View for ItemListSelection {
    type V = SelectionView;

    closed spec fn view(&self) -> SelectionView {
        SelectionView {
            start_index: self.start_index as int,
            pivot_index: opt_int(self.pivot_index),
            current_index: self.current_index as int,
            true_index: self.true_index as int,
            previous_container_index: opt_int(self.previous_container_index),
            container_index: opt_int(self.container_index),
            selecting_items: self.selecting_items,
            selected_indices: ints(self.selected_indices@),
            selected_items: self.selected_items@,
            items: self.items@,
            page_line_count: self.page_line_count as int,
        }
    }
}

impl SelectionView {
    /// The number of items.
    pub open spec fn n(self) -> int {
        self.items.len() as int
    }

    /// The selected items are copies of the items at the selected indices, and
    /// no index is selected twice.
    pub open spec fn selection_consistent(self) -> bool {
        &&& self.selected_indices.len() == self.selected_items.len()
        &&& forall|k: int| 0 <= k < self.selected_indices.len() ==> {
            &&& 0 <= #[trigger] self.selected_indices[k] < self.n()
            &&& self.selected_items[k] == self.items[self.selected_indices[k]]
        }
        &&& self.selected_indices.no_duplicates()
    }

    /// The bounds every operation keeps, and the consistency of the selection.
    pub open spec fn wf(self) -> bool {
        &&& self.n() <= max_items()
        &&& 0 <= self.page_line_count <= max_items()
        &&& 0 <= self.start_index <= 4 * max_items()
        &&& in_bound(self.current_index, index_bound())
        &&& in_bound(self.true_index, 2 * index_bound())
        &&& opt_in_bound(self.previous_container_index, 2 * index_bound())
        &&& opt_in_bound(self.container_index, 2 * index_bound())
        &&& self.selection_consistent()
    }

    /// The pivot, or -1 without one.
    pub open spec fn pivot_value(self) -> int {
        match self.pivot_index {
            Some(p) => p,
            None => -1,
        }
    }

    pub open spec fn is_selecting(self) -> bool {
        self.selecting_items || self.selected_items.len() > 0
    }

    pub open spec fn is_selected(self, index: int) -> bool {
        self.selected_indices.contains(index)
    }

    pub open spec fn max_scroll_index(self) -> int {
        if self.n() > self.page_line_count { self.n() - self.page_line_count } else { 0 }
    }

    /// The last line of the current page that holds an item (counted from the
    /// top of the page).
    pub open spec fn max_selection_index(self) -> int {
        if self.n() == 0 {
            0
        } else {
            let remaining = self.n() - 1 - self.start_index;
            if remaining >= self.page_line_count { self.page_line_count - 1 } else { remaining }
        }
    }

    pub open spec fn page_number(self) -> int {
        self.start_index / self.page_line_count + 1
    }

    /// The number of pages: the item count divided by the page size, rounded
    /// up; without lines on a page, items fill unboundedly many pages, counted
    /// as the largest `i32`.
    pub open spec fn total_pages(self) -> int {
        if self.n() == 0 {
            0
        } else if self.n() < self.page_line_count {
            1
        } else if self.page_line_count == 0 {
            i32::MAX as int
        } else {
            (self.n() + self.page_line_count - 1) / self.page_line_count
        }
    }

    pub open spec fn should_scroll_up(self, selection_index: int) -> bool {
        selection_index % self.page_line_count == 0 && self.start_index >= 1
    }

    pub open spec fn should_scroll_down(self, selection_index: int) -> bool {
        selection_index == self.max_selection_index() && self.start_index <= self.max_scroll_index()
    }

    pub open spec fn should_turn_to_previous_page(self, selection_index: int) -> bool {
        selection_index % self.page_line_count == 0 && self.start_index >= self.page_line_count
    }

    pub open spec fn should_turn_to_next_page(self, selection_index: int) -> bool {
        &&& self.page_number() < self.total_pages()
        &&& selection_index == self.max_selection_index()
        &&& self.start_index <= self.max_scroll_index()
        &&& self.n() - 1 - self.start_index > 0
    }

    /// Selecting an index: the first selected index becomes the pivot; a valid
    /// index not yet selected is added, after the others when it lies at or
    /// below the previous container index, before them otherwise.
    pub open spec fn select(self, index: int) -> SelectionView {
        let s = if self.pivot_index is None { SelectionView { pivot_index: Some(index), ..self } } else { self };
        if !s.selected_indices.contains(index) && 0 <= index < s.n() {
            let item = s.items[index];
            match s.previous_container_index {
                Some(p) => if p <= index {
                    SelectionView {
                        selected_indices: s.selected_indices.push(index),
                        selected_items: s.selected_items.push(item),
                        ..s
                    }
                } else {
                    SelectionView {
                        selected_indices: seq![index] + s.selected_indices,
                        selected_items: seq![item] + s.selected_items,
                        ..s
                    }
                },
                None => SelectionView {
                    selected_indices: seq![index] + s.selected_indices,
                    selected_items: seq![item] + s.selected_items,
                    ..s
                },
            }
        } else {
            s
        }
    }

    /// Deselecting a selected index removes it (and its item); when it was the
    /// container index, the container index is cleared.
    pub open spec fn deselect(self, index: int) -> SelectionView {
        if self.selected_indices.contains(index) && 0 <= index < self.n() {
            let k = self.selected_indices.index_of(index);
            SelectionView {
                selected_indices: self.selected_indices.remove(k),
                selected_items: self.selected_items.remove(k),
                container_index: if self.container_index == Some(index) { None } else { self.container_index },
                ..self
            }
        } else {
            self
        }
    }

    /// Selects `lo`, `lo + 1`, ..., `hi` in that order.
    pub open spec fn select_up(self, lo: int, hi: int) -> SelectionView
        decreases hi - lo + 1,
    {
        if lo > hi { self } else { self.select_up(lo, hi - 1).select(hi) }
    }

    /// Selects `hi`, `hi - 1`, ..., `lo` in that order.
    pub open spec fn select_down(self, lo: int, hi: int) -> SelectionView
        decreases hi - lo + 1,
    {
        if lo > hi { self } else { self.select_down(lo + 1, hi).select(lo) }
    }

    /// Deselects `lo`, `lo + 1`, ..., `hi - 1` in that order.
    pub open spec fn deselect_up(self, lo: int, hi: int) -> SelectionView
        decreases hi - lo,
    {
        if lo >= hi { self } else { self.deselect_up(lo, hi - 1).deselect(hi - 1) }
    }

    /// Focuses line `index` of the page; while selecting, the container index
    /// moves to it and the previous one is remembered.
    pub open spec fn update_indices(self, index: int) -> SelectionView {
        let s = SelectionView { current_index: index, true_index: self.start_index + index, ..self };
        if s.is_selecting() {
            SelectionView {
                previous_container_index: Some(match s.container_index {
                    Some(c) => c,
                    None => index,
                }),
                container_index: Some(self.start_index + index),
                ..s
            }
        } else {
            s
        }
    }

    pub open spec fn check_selecting_items_above(self) -> SelectionView {
        match (self.previous_container_index, self.container_index) {
            (Some(p), Some(c)) => if c < p && c < self.pivot_value() { self.select_down(c, self.pivot_value()) } else { self },
            _ => self,
        }
    }

    pub open spec fn check_reducing_selection_above(self) -> SelectionView {
        match (self.previous_container_index, self.container_index) {
            (Some(p), Some(c)) => if (c > p && c < self.pivot_value()) || self.container_index == Some(self.pivot_value()) {
                self.deselect_up(p - 1, c)
            } else {
                self
            },
            _ => self,
        }
    }

    pub open spec fn check_selecting_items_below(self) -> SelectionView {
        match (self.previous_container_index, self.container_index) {
            (Some(p), Some(c)) => if c > p && c > self.pivot_value() { self.select_up(self.pivot_value(), c) } else { self },
            _ => self,
        }
    }

    pub open spec fn check_reducing_selection_below(self) -> SelectionView {
        match (self.previous_container_index, self.container_index) {
            (Some(p), Some(c)) => if (c < p && c > self.pivot_value()) || self.container_index == Some(self.pivot_value()) {
                self.deselect_up(c + 1, p + 1)
            } else {
                self
            },
            _ => self,
        }
    }

    /// Focuses line `index` and, while selecting, grows or shrinks the
    /// selection towards the new container index.
    pub open spec fn update_selection(self, index: int) -> SelectionView {
        let s = self.update_indices(index);
        match (s.previous_container_index, s.container_index) {
            (Some(p), Some(c)) => if c != p && s.selecting_items {
                s.check_selecting_items_above().check_reducing_selection_above().check_selecting_items_below().check_reducing_selection_below()
            } else {
                s
            },
            _ => s,
        }
    }

    pub open spec fn move_up(self) -> SelectionView {
        let c = self.current_index;
        if c > 0 {
            self.update_selection(c - 1)
        } else if self.should_scroll_up(c) {
            SelectionView { start_index: self.start_index - 1, ..self }.update_selection(c)
        } else if c == 0 && self.start_index > 0 {
            self.update_selection(c - 1)
        } else {
            self.update_selection(c)
        }
    }

    pub open spec fn move_down(self) -> SelectionView {
        let c = self.current_index;
        let valid = self.start_index + c < self.n();
        if valid && c < self.max_selection_index() {
            self.update_selection(c + 1)
        } else if valid && self.should_scroll_down(c) {
            SelectionView { start_index: self.start_index + 1, ..self }.update_selection(c)
        } else {
            self.update_selection(c)
        }
    }

    pub open spec fn page_up(self) -> SelectionView {
        let c = self.current_index;
        if self.should_turn_to_previous_page(c) {
            let s = SelectionView { start_index: self.start_index - self.page_line_count, ..self };
            s.update_selection(s.max_selection_index())
        } else if c == 0 {
            SelectionView { start_index: 0, ..self }.update_selection(0)
        } else {
            self.update_selection(0)
        }
    }

    pub open spec fn page_down(self) -> SelectionView {
        let c = self.current_index;
        if self.should_turn_to_next_page(c) {
            SelectionView { start_index: self.start_index + self.page_line_count, ..self }.update_selection(0)
        } else {
            self.update_selection(self.max_selection_index())
        }
    }

    pub open spec fn toggle_select(self) -> SelectionView {
        let s = SelectionView { selecting_items: !self.selecting_items, ..self };
        if s.selecting_items {
            SelectionView { pivot_index: Some(s.true_index), ..s }.select(s.true_index).update_indices(s.current_index)
        } else {
            s
        }
    }

    pub open spec fn cancel_selection(self) -> SelectionView {
        SelectionView {
            selecting_items: false,
            selected_items: Seq::empty(),
            selected_indices: Seq::empty(),
            pivot_index: None,
            container_index: None,
            ..self
        }
    }

    pub open spec fn set_initial_selection(self, index: int) -> SelectionView {
        let container_index = index + self.start_index;
        SelectionView { selecting_items: true, ..self }.select(container_index).update_selection(index)
    }

    pub open spec fn reset_selection(self) -> SelectionView {
        SelectionView {
            start_index: 0,
            current_index: 0,
            true_index: 0,
            pivot_index: None,
            previous_container_index: None,
            container_index: None,
            selecting_items: false,
            selected_indices: Seq::empty(),
            selected_items: Seq::empty(),
            ..self
        }
    }
}


proof fn lemma_ints_push(s: Seq<i32>, x: i32)
    ensures
        ints(s.push(x)) == ints(s).push(x as int),
        ints(seq![x] + s) == seq![x as int] + ints(s),
{
    assert(ints(s.push(x)) =~= ints(s).push(x as int));
    assert(ints(seq![x] + s) =~= seq![x as int] + ints(s));
}

proof fn lemma_ints_remove(s: Seq<i32>, k: int)
    requires
        0 <= k < s.len(),
    ensures
        ints(s.remove(k)) == ints(s).remove(k),
{
    assert(ints(s.remove(k)) =~= ints(s).remove(k));
}

/// Selecting keeps the bounds and the consistency of the selection.
proof fn lemma_select_keeps_wf(s: SelectionView, index: int)
    requires
        s.wf(),
    ensures
        s.select(index).wf(),
        s.select(index).items == s.items,
        s.select(index).page_line_count == s.page_line_count,
{
    let t = s.select(index);
    if !s.selected_indices.contains(index) && 0 <= index < s.n() {
        let a = s.selected_indices;
        assert forall|i: int, j: int| 0 <= i < t.selected_indices.len() && 0 <= j < t.selected_indices.len() && i != j
            implies t.selected_indices[i] != t.selected_indices[j] by {
            if t.selected_indices == a.push(index) {
                if i < a.len() && j < a.len() {
                } else if i < a.len() {
                    assert(a.contains(a[i]));
                } else {
                    assert(a.contains(a[j]));
                }
            } else {
                assert(t.selected_indices == seq![index] + a);
                if i > 0 && j > 0 {
                    assert(t.selected_indices[i] == a[i - 1]);
                    assert(t.selected_indices[j] == a[j - 1]);
                } else if i > 0 {
                    assert(t.selected_indices[i] == a[i - 1]);
                    assert(a.contains(a[i - 1]));
                } else {
                    assert(t.selected_indices[j] == a[j - 1]);
                    assert(a.contains(a[j - 1]));
                }
            }
        }
        assert forall|k: int| 0 <= k < t.selected_indices.len() implies {
            &&& 0 <= #[trigger] t.selected_indices[k] < t.n()
            &&& t.selected_items[k] == t.items[t.selected_indices[k]]
        } by {
            if t.selected_indices == a.push(index) {
                if k < a.len() {
                    assert(t.selected_indices[k] == a[k]);
                }
            } else {
                if k > 0 {
                    assert(t.selected_indices[k] == a[k - 1]);
                }
            }
        }
    }
}

/// Deselecting keeps the bounds and the consistency of the selection.
proof fn lemma_deselect_keeps_wf(s: SelectionView, index: int)
    requires
        s.wf(),
    ensures
        s.deselect(index).wf(),
        s.deselect(index).items == s.items,
        s.deselect(index).page_line_count == s.page_line_count,
{
    let t = s.deselect(index);
    if s.selected_indices.contains(index) && 0 <= index < s.n() {
        let a = s.selected_indices;
        let k = a.index_of(index);
        assert(0 <= k < a.len() && a[k] == index);
        assert forall|i: int| 0 <= i < t.selected_indices.len() implies {
            &&& 0 <= #[trigger] t.selected_indices[i] < t.n()
            &&& t.selected_items[i] == t.items[t.selected_indices[i]]
        } by {
            if i < k {
                assert(t.selected_indices[i] == a[i]);
            } else {
                assert(t.selected_indices[i] == a[i + 1]);
            }
        }
        assert forall|i: int, j: int| 0 <= i < t.selected_indices.len() && 0 <= j < t.selected_indices.len() && i != j
            implies t.selected_indices[i] != t.selected_indices[j] by {
            let ii = if i < k { i } else { i + 1 };
            let jj = if j < k { j } else { j + 1 };
            assert(t.selected_indices[i] == a[ii]);
            assert(t.selected_indices[j] == a[jj]);
        }
    }
}

/// No more indices are selected than there are items.
proof fn lemma_selected_len_bounded(s: SelectionView)
    requires
        s.wf(),
    ensures
        s.selected_indices.len() <= s.n(),
{
    let a = s.selected_indices;
    a.unique_seq_to_set();
    vstd::set_lib::lemma_int_range(0, s.n());
    assert forall|x: int| a.to_set().contains(x) implies vstd::set_lib::set_int_range(0, s.n()).contains(x) by {
        let k = choose|k: int| 0 <= k < a.len() && a[k] == x;
        assert(0 <= a[k] < s.n());
    }
    vstd::set_lib::lemma_len_subset(a.to_set(), vstd::set_lib::set_int_range(0, s.n()));
}

/// A number and its negation have the same divisors.
proof fn lemma_rem_zero_neg(x: int, d: int)
    requires
        d > 0,
    ensures
        (x % d == 0) == ((-x) % d == 0),
{
    vstd::arithmetic::div_mod::lemma_fundamental_div_mod(x, d);
    vstd::arithmetic::div_mod::lemma_fundamental_div_mod(-x, d);
    if x % d == 0 {
        vstd::arithmetic::div_mod::lemma_mod_multiples_basic(-(x / d), d);
        assert(-x == (-(x / d)) * d) by (nonlinear_arith)
            requires x == d * (x / d) + 0;
    }
    if (-x) % d == 0 {
        vstd::arithmetic::div_mod::lemma_mod_multiples_basic(-((-x) / d), d);
        assert(x == (-((-x) / d)) * d) by (nonlinear_arith)
            requires -x == d * ((-x) / d) + 0;
    }
}

/// Cancelling leaves nothing selected and stops selecting.
pub proof fn lemma_cancel_clears_selection(s: SelectionView, index: int)
    ensures
        !s.cancel_selection().is_selecting(),
        !s.cancel_selection().is_selected(index),
{
}

/// Selecting an index that is not selected and then deselecting it gives
/// back the same selection.
pub proof fn lemma_select_then_deselect(s: SelectionView, index: int)
    requires
        s.wf(),
        0 <= index < s.n(),
        !s.is_selected(index),
    ensures
        s.select(index).deselect(index).selected_indices == s.selected_indices,
        s.select(index).deselect(index).selected_items == s.selected_items,
{
    let t = s.select(index);
    lemma_select_keeps_wf(s, index);
    let a = s.selected_indices;
    let b = t.selected_indices;
    assert(b.contains(index)) by {
        if b == a.push(index) {
            assert(b[a.len() as int] == index);
        } else {
            assert(b[0] == index);
        }
    }
    let k = b.index_of(index);
    assert(b[k] == index);
    if b == a.push(index) {
        assert(k == a.len()) by {
            if k < a.len() {
                assert(a[k] == index);
                assert(a.contains(index));
            }
        }
        assert(b.remove(k) =~= a);
        assert(t.selected_items.remove(k) =~= s.selected_items);
    } else {
        assert(b == seq![index] + a);
        assert(k == 0) by {
            if k > 0 {
                assert(a[k - 1] == index);
                assert(a.contains(index));
            }
        }
        assert(b.remove(k) =~= a);
        assert(t.selected_items.remove(k) =~= s.selected_items);
    }
}

/// Moving about the list while nothing is selected and no selection is
/// under way selects nothing.
pub proof fn lemma_moving_without_selecting_selects_nothing(s: SelectionView)
    requires
        !s.is_selecting(),
    ensures
        !s.move_up().is_selecting(),
        !s.move_down().is_selecting(),
        !s.page_up().is_selecting(),
        !s.page_down().is_selecting(),
        s.move_up().selected_indices == s.selected_indices,
        s.move_down().selected_indices == s.selected_indices,
        s.page_up().selected_indices == s.selected_indices,
        s.page_down().selected_indices == s.selected_indices,
{
}

/// After any move the focused position in the list is the first line of the
/// page plus the focused line.
pub proof fn lemma_moves_keep_focus_in_step(s: SelectionView)
    ensures
        s.move_up().true_index == s.move_up().start_index + s.move_up().current_index,
        s.move_down().true_index == s.move_down().start_index + s.move_down().current_index,
        s.page_up().true_index == s.page_up().start_index + s.page_up().current_index,
        s.page_down().true_index == s.page_down().start_index + s.page_down().current_index,
{
    lemma_update_selection_focus(s, s.current_index - 1);
    lemma_update_selection_focus(s, s.current_index);
    lemma_update_selection_focus(s, s.current_index + 1);
    lemma_update_selection_focus(SelectionView { start_index: s.start_index - 1, ..s }, s.current_index);
    lemma_update_selection_focus(SelectionView { start_index: s.start_index + 1, ..s }, s.current_index);
    let back = SelectionView { start_index: s.start_index - s.page_line_count, ..s };
    lemma_update_selection_focus(back, back.max_selection_index());
    lemma_update_selection_focus(SelectionView { start_index: 0, ..s }, 0);
    lemma_update_selection_focus(s, 0);
    lemma_update_selection_focus(SelectionView { start_index: s.start_index + s.page_line_count, ..s }, 0);
    lemma_update_selection_focus(s, s.max_selection_index());
}

/// Moving up from the item at position `t > 0` of the list (a focused line on
/// the page, whose page has lines) focuses the item at `t - 1`: within the
/// page the focus moves up a line, and at the top of the page the page
/// scrolls up a line.
pub proof fn lemma_move_up_focuses_previous_item(s: SelectionView)
    requires
        s.page_line_count > 0,
        s.current_index >= 0,
        s.start_index + s.current_index >= 1,
    ensures
        s.move_up().start_index + s.move_up().current_index == s.start_index + s.current_index - 1,
        s.move_up().true_index == s.start_index + s.current_index - 1,
        s.move_up().current_index >= 0,
{
    lemma_update_selection_focus(s, s.current_index - 1);
    lemma_update_selection_focus(SelectionView { start_index: s.start_index - 1, ..s }, s.current_index);
    assert(s.current_index == 0 ==> s.should_scroll_up(s.current_index));
}

/// Moving down from a line of the page that holds an item, when a next item
/// follows in the list, focuses that next item: within the page the focus
/// moves down a line, and at the bottom of the page the page scrolls down a
/// line.
pub proof fn lemma_move_down_focuses_next_item(s: SelectionView)
    requires
        s.page_line_count > 0,
        0 <= s.start_index,
        0 <= s.current_index <= s.max_selection_index(),
        s.start_index + s.current_index + 1 < s.n(),
    ensures
        s.move_down().start_index + s.move_down().current_index == s.start_index + s.current_index + 1,
        s.move_down().true_index == s.start_index + s.current_index + 1,
{
    lemma_update_selection_focus(s, s.current_index + 1);
    lemma_update_selection_focus(SelectionView { start_index: s.start_index + 1, ..s }, s.current_index);
}

/// Moving down to a next item and then up again focuses the item the focus
/// started on.
pub proof fn lemma_move_down_then_up_returns(s: SelectionView)
    requires
        s.page_line_count > 0,
        0 <= s.start_index,
        0 <= s.current_index <= s.max_selection_index(),
        s.start_index + s.current_index + 1 < s.n(),
    ensures
        s.move_down().move_up().true_index == s.start_index + s.current_index,
{
    lemma_move_down_focuses_next_item(s);
    let t = s.move_down();
    lemma_update_selection_focus(s, s.current_index + 1);
    lemma_update_selection_focus(SelectionView { start_index: s.start_index + 1, ..s }, s.current_index);
    lemma_move_up_focuses_previous_item(t);
}

/// Moving up from the first item of the list keeps the focus on it.
pub proof fn lemma_move_up_stops_at_first_item(s: SelectionView)
    requires
        s.page_line_count > 0,
        s.start_index == 0,
        s.current_index == 0,
    ensures
        s.move_up().start_index == 0,
        s.move_up().current_index == 0,
        s.move_up().true_index == 0,
{
    lemma_update_selection_focus(s, s.current_index);
}

/// From a line of the page that holds an item, paging up never moves the
/// focus further down the list and paging down never moves it further up;
/// paging up from below the top line of the page focuses that top line.
pub proof fn lemma_pages_move_focus_in_their_direction(s: SelectionView)
    requires
        s.page_line_count > 0,
        0 <= s.start_index,
        0 <= s.current_index <= s.max_selection_index(),
    ensures
        s.page_up().true_index <= s.start_index + s.current_index,
        s.page_down().true_index >= s.start_index + s.current_index,
        s.current_index > 0 ==> s.page_up().start_index == s.start_index && s.page_up().true_index == s.start_index,
{
    let back = SelectionView { start_index: s.start_index - s.page_line_count, ..s };
    lemma_update_selection_focus(back, back.max_selection_index());
    lemma_update_selection_focus(SelectionView { start_index: 0, ..s }, 0);
    lemma_update_selection_focus(s, 0);
    lemma_update_selection_focus(SelectionView { start_index: s.start_index + s.page_line_count, ..s }, 0);
    lemma_update_selection_focus(s, s.max_selection_index());
    assert(s.max_selection_index() <= s.page_line_count - 1);
    assert(back.max_selection_index() <= back.page_line_count - 1);
    if s.current_index > 0 {
        vstd::arithmetic::div_mod::lemma_small_mod(s.current_index as nat, s.page_line_count as nat);
    }
}

proof fn lemma_range_ops_keep_position(s: SelectionView, lo: int, hi: int)
    ensures
        s.select_up(lo, hi).start_index == s.start_index && s.select_up(lo, hi).current_index == s.current_index
            && s.select_up(lo, hi).true_index == s.true_index,
        s.select_down(lo, hi).start_index == s.start_index && s.select_down(lo, hi).current_index == s.current_index
            && s.select_down(lo, hi).true_index == s.true_index,
        s.deselect_up(lo, hi).start_index == s.start_index && s.deselect_up(lo, hi).current_index == s.current_index
            && s.deselect_up(lo, hi).true_index == s.true_index,
        s.select_up(lo, hi).page_line_count == s.page_line_count,
        s.select_down(lo, hi).page_line_count == s.page_line_count,
        s.deselect_up(lo, hi).page_line_count == s.page_line_count,
    decreases hi - lo + 1,
{
    if lo <= hi {
        lemma_range_ops_keep_position(s, lo, hi - 1);
        lemma_range_ops_keep_position(s, lo + 1, hi);
    }
}

proof fn lemma_update_selection_focus(s: SelectionView, index: int)
    ensures
        s.update_selection(index).true_index == s.update_selection(index).start_index + s.update_selection(index).current_index,
        s.update_selection(index).current_index == index,
        s.update_selection(index).start_index == s.start_index,
        s.update_selection(index).page_line_count == s.page_line_count,
{
    let t = s.update_indices(index);
    let p = t.previous_container_index;
    let c = t.container_index;
    if p is Some && c is Some {
        let a1 = t.check_selecting_items_above();
        let a2 = a1.check_reducing_selection_above();
        let a3 = a2.check_selecting_items_below();
        if t.container_index is Some && t.previous_container_index is Some {
            lemma_range_ops_keep_position(t, t.container_index.unwrap(), t.pivot_value());
            lemma_range_ops_keep_position(t, t.previous_container_index.unwrap() - 1, t.container_index.unwrap());
        }
        if a1.container_index is Some && a1.previous_container_index is Some {
            lemma_range_ops_keep_position(a1, a1.previous_container_index.unwrap() - 1, a1.container_index.unwrap());
        }
        if a2.container_index is Some && a2.previous_container_index is Some {
            lemma_range_ops_keep_position(a2, a2.pivot_value(), a2.container_index.unwrap());
        }
        if a3.container_index is Some && a3.previous_container_index is Some {
            lemma_range_ops_keep_position(a3, a3.container_index.unwrap() + 1, a3.previous_container_index.unwrap() + 1);
        }
    }
}

impl ItemListSelection {
    /// A selection over `items` showing `page_line_count` lines per page, with
    /// the first line focused and nothing selected.
    pub fn new(items: Vec<Item>, page_line_count: i32) -> (r: ItemListSelection)
        requires
            items.len() <= max_items(),
            0 <= page_line_count <= max_items(),
        ensures
            r@.wf(),
            r@ == (SelectionView {
                start_index: 0,
                pivot_index: None,
                current_index: 0,
                true_index: 0,
                previous_container_index: None,
                container_index: None,
                selecting_items: false,
                selected_indices: Seq::empty(),
                selected_items: Seq::empty(),
                items: items@,
                page_line_count: page_line_count as int,
            }),
    {
        let r = ItemListSelection {
            selection_mode: SelectionMode::SelectingItems,
            start_index: 0,
            pivot_index: None,
            current_index: 0,
            true_index: 0,
            previous_container_index: None,
            container_index: None,
            selecting_items: false,
            selected_indices: VecDeque::new(),
            selected_items: VecDeque::new(),
            items,
            page_line_count,
        };
        assert(r@.selected_indices =~= Seq::<int>::empty());
        r
    }

    /// Returns to the top of the list with nothing selected.
    fn reset_selection(&mut self)
        requires
            old(self)@.wf(),
        ensures
            final(self)@ == old(self)@.reset_selection(),
            final(self)@.wf(),
    {
        self.start_index = 0;
        self.current_index = 0;
        self.true_index = 0;
        self.pivot_index = None;
        self.previous_container_index = None;
        self.container_index = None;
        self.selecting_items = false;
        self.selected_indices.clear();
        self.selected_items.clear();
        assert(self@.selected_indices =~= Seq::<int>::empty());
    }

    /// The focused line, counted from the top of the page.
    pub fn get_current_index(&self) -> (r: i32)
        ensures
            r == self@.current_index,
    {
        self.current_index
    }

    /// The pivot of the selection, or -1 without one.
    fn get_pivot_index(&self) -> (r: i32)
        ensures
            r == self@.pivot_value(),
    {
        match self.pivot_index {
            Some(idx) => idx,
            None => -1,
        }
    }

    fn determine_max_scroll_index(&self) -> (r: i32)
        requires
            self@.wf(),
        ensures
            r == self@.max_scroll_index(),
    {
        let item_count = self.items.len() as i32;
        let mut max_scroll_index: i32 = 0;
        if item_count > self.page_line_count {
            max_scroll_index = item_count - self.page_line_count;
        }
        max_scroll_index
    }

    /// The last line of the current page that holds an item.
    pub fn determine_max_selection_index(&mut self) -> (r: i32)
        requires
            old(self)@.wf(),
        ensures
            *final(self) == *old(self),
            r == old(self)@.max_selection_index(),
    {
        if self.items.len() == 0 {
            0
        } else {
            let remaining_item_count = self.items.len() as i32 - 1 - self.start_index;
            if remaining_item_count >= self.page_line_count {
                self.page_line_count - 1
            } else {
                remaining_item_count
            }
        }
    }

    /// Where `index` stands among the selected indices, if it is selected.
    fn selected_position(&self, index: i32) -> (r: Option<usize>)
        ensures
            match r {
                Some(k) => k < self.selected_indices@.len() && self.selected_indices@[k as int] == index,
                None => !self@.selected_indices.contains(index as int),
            },
    {
        let mut k: usize = 0;
        while k < self.selected_indices.len()
            invariant
                k <= self.selected_indices@.len(),
                forall|j: int| 0 <= j < k ==> self.selected_indices@[j] != index,
            decreases self.selected_indices@.len() - k,
        {
            if self.selected_indices[k] == index {
                return Some(k);
            }
            k = k + 1;
        }
        proof {
            if self@.selected_indices.contains(index as int) {
                let j = choose|j: int| 0 <= j < self@.selected_indices.len() && self@.selected_indices[j] == index as int;
                assert(self.selected_indices@[j] == index);
            }
        }
        None
    }

}


impl ItemListSelection {
    fn has_pivot_point(&self) -> (r: bool)
        ensures
            r == self@.pivot_index is Some,
    {
        match self.pivot_index {
            Some(_) => true,
            None => false,
        }
    }

    /// Whether the container index is the pivot.
    fn selected_start_position(&self) -> (r: bool)
        ensures
            r == (self@.container_index == Some(self@.pivot_value())),
    {
        let pivot = self.get_pivot_index();
        match self.container_index {
            Some(c) => c == pivot,
            None => false,
        }
    }

    /// Selects `start`, `start + 1`, ..., `end - 1`.
    fn select_range(&mut self, start: i32, end: i32)
        requires
            old(self)@.wf(),
        ensures
            final(self)@ == old(self)@.select_up(start as int, end - 1),
            final(self)@.wf(),
    {
        let ghost s0 = self@;
        let mut i = start;
        while i < end
            invariant
                start <= i,
                i <= end || i == start,
                self@ == s0.select_up(start as int, i - 1),
                self@.wf(),
            decreases end - i,
        {
            self.select(i);
            i = i + 1;
        }
    }

    /// Selects `hi`, `hi - 1`, ..., `lo`.
    fn select_range_down(&mut self, lo: i32, hi: i32)
        requires
            old(self)@.wf(),
            lo > i32::MIN,
        ensures
            final(self)@ == old(self)@.select_down(lo as int, hi as int),
            final(self)@.wf(),
    {
        let ghost s0 = self@;
        let mut i = hi;
        while i >= lo
            invariant
                i <= hi,
                i >= lo - 1 || i == hi,
                lo > i32::MIN,
                self@ == s0.select_down(i + 1, hi as int),
                self@.wf(),
            decreases i - lo + 1,
        {
            self.select(i);
            i = i - 1;
        }
    }

    /// Deselects `start`, `start + 1`, ..., `end - 1`.
    fn deselect_range(&mut self, start: i32, end: i32)
        requires
            old(self)@.wf(),
        ensures
            final(self)@ == old(self)@.deselect_up(start as int, end as int),
            final(self)@.wf(),
    {
        let ghost s0 = self@;
        let mut i = start;
        while i < end
            invariant
                start <= i,
                i <= end || i == start,
                self@ == s0.deselect_up(start as int, i as int),
                self@.wf(),
            decreases end - i,
        {
            self.deselect(i);
            i = i + 1;
        }
    }

    fn check_selecting_items_above(&mut self)
        requires
            old(self)@.wf(),
        ensures
            final(self)@ == old(self)@.check_selecting_items_above(),
            final(self)@.wf(),
    {
        match self.previous_container_index {
            Some(previous_container_index) => {
                match self.container_index {
                    Some(container_index) => {
                        let pivot = self.get_pivot_index();
                        if container_index < previous_container_index && container_index < pivot {
                            self.select_range_down(container_index, pivot);
                        }
                    },
                    None => {},
                }
            },
            None => {},
        }
    }

    fn check_reducing_selection_above(&mut self)
        requires
            old(self)@.wf(),
        ensures
            final(self)@ == old(self)@.check_reducing_selection_above(),
            final(self)@.wf(),
    {
        match self.previous_container_index {
            Some(previous_container_index) => {
                match self.container_index {
                    Some(container_index) => {
                        let pivot = self.get_pivot_index();
                        let reducing_selection_above = container_index > previous_container_index
                            && container_index < pivot;
                        if reducing_selection_above || self.selected_start_position() {
                            self.deselect_range(previous_container_index - 1, container_index);
                        }
                    },
                    None => {},
                }
            },
            None => {},
        }
    }

    fn check_selecting_items_below(&mut self)
        requires
            old(self)@.wf(),
        ensures
            final(self)@ == old(self)@.check_selecting_items_below(),
            final(self)@.wf(),
    {
        match self.previous_container_index {
            Some(previous_container_index) => {
                match self.container_index {
                    Some(container_index) => {
                        let pivot = self.get_pivot_index();
                        if container_index > previous_container_index && container_index > pivot {
                            self.select_range(pivot, container_index + 1);
                        }
                    },
                    None => {},
                }
            },
            None => {},
        }
    }

    fn check_reducing_selection_below(&mut self)
        requires
            old(self)@.wf(),
        ensures
            final(self)@ == old(self)@.check_reducing_selection_below(),
            final(self)@.wf(),
    {
        match self.previous_container_index {
            Some(previous_container_index) => {
                match self.container_index {
                    Some(container_index) => {
                        let pivot = self.get_pivot_index();
                        let reducing_selection_below = container_index < previous_container_index
                            && container_index > pivot;
                        if reducing_selection_below || self.selected_start_position() {
                            self.deselect_range(container_index + 1, previous_container_index + 1);
                        }
                    },
                    None => {},
                }
            },
            None => {},
        }
    }

    /// Focuses line `index` of the page; while selecting, the container index
    /// follows it and the previous one is remembered.
    fn update_indices(&mut self, index: i32)
        requires
            old(self)@.wf(),
            in_bound(index as int, index_bound()),
        ensures
            final(self)@ == old(self)@.update_indices(index as int),
            final(self)@.wf(),
    {
        self.current_index = index;
        self.true_index = self.start_index + index;
        if self.is_selecting() {
            match self.container_index {
                Some(previous_container_index) => {
                    self.previous_container_index = Some(previous_container_index);
                    self.container_index = Some(self.start_index + index);
                },
                None => {
                    let previous_current_index = self.current_index;
                    self.previous_container_index = Some(previous_current_index);
                    self.container_index = Some(self.start_index + index);
                },
            }
        }
    }

    /// Focuses line `index` of the page and, while selecting, grows or shrinks
    /// the selection from the pivot to the new container index.
    pub fn update_selection(&mut self, index: i32)
        requires
            old(self)@.wf(),
            in_bound(index as int, index_bound()),
        ensures
            final(self)@ == old(self)@.update_selection(index as int),
            final(self)@.wf(),
    {
        self.update_indices(index);
        match self.previous_container_index {
            Some(previous_container_index) => {
                match self.container_index {
                    Some(container_index) => {
                        let selection_changed = container_index != previous_container_index;
                        if selection_changed && self.selecting_items {
                            self.check_selecting_items_above();
                            self.check_reducing_selection_above();
                            self.check_selecting_items_below();
                            self.check_reducing_selection_below();
                        }
                    },
                    None => {},
                }
            },
            None => {},
        }
    }
}


impl ItemListSelection {
    fn should_scroll_up(&mut self, selection_index: i32) -> (r: bool)
        requires
            old(self)@.wf(),
            old(self)@.page_line_count > 0,
        ensures
            *final(self) == *old(self),
            r == old(self)@.should_scroll_up(selection_index as int),
    {
        proof {
            lemma_rem_zero_neg(selection_index as int, self.page_line_count as int);
        }
        let selection_at_start_of_a_page = selection_index % self.page_line_count == 0;
        let can_scroll_up_one = self.start_index >= 1;
        selection_at_start_of_a_page && can_scroll_up_one
    }

    fn should_scroll_down(&mut self, selection_index: i32) -> (r: bool)
        requires
            old(self)@.wf(),
        ensures
            *final(self) == *old(self),
            r == old(self)@.should_scroll_down(selection_index as int),
    {
        let max_scroll_index = self.determine_max_scroll_index();
        let max_selection_index = self.determine_max_selection_index();
        let end_of_page = selection_index == max_selection_index;
        let can_scroll = self.start_index <= max_scroll_index;
        end_of_page && can_scroll
    }

    fn should_turn_to_previous_page(&mut self, selection_index: i32) -> (r: bool)
        requires
            old(self)@.wf(),
            old(self)@.page_line_count > 0,
        ensures
            *final(self) == *old(self),
            r == old(self)@.should_turn_to_previous_page(selection_index as int),
    {
        proof {
            lemma_rem_zero_neg(selection_index as int, self.page_line_count as int);
        }
        let selection_at_start_of_a_page = selection_index % self.page_line_count == 0;
        let can_turn_back = self.start_index >= self.page_line_count;
        selection_at_start_of_a_page && can_turn_back
    }

    fn should_turn_to_next_page(&mut self, selection_index: i32) -> (r: bool)
        requires
            old(self)@.wf(),
            old(self)@.page_line_count > 0,
        ensures
            *final(self) == *old(self),
            r == old(self)@.should_turn_to_next_page(selection_index as int),
    {
        let more_pages = self.get_page_number() < self.get_total_pages();
        let max_scroll_index = self.determine_max_scroll_index();
        let max_selection_index = self.determine_max_selection_index();
        let end_of_page = selection_index == max_selection_index;
        let remaining_item_count = self.items.len() as i32 - 1 - self.start_index;
        let can_scroll = self.start_index <= max_scroll_index && remaining_item_count > 0;
        more_pages && end_of_page && can_scroll
    }

    /// Focuses line `index` of the page, leaving the selection as it is.
    pub fn set_current_index(&mut self, index: i32)
        requires
            old(self)@.wf(),
            in_bound(index as int, index_bound()),
        ensures
            final(self)@ == (SelectionView { current_index: index as int, ..old(self)@ }),
            final(self)@.wf(),
    {
        self.current_index = index;
    }

    /// The number of selected items.
    pub fn get_selected_count(&self) -> (r: i32)
        requires
            self@.wf(),
        ensures
            r == self@.selected_indices.len(),
    {
        proof {
            lemma_selected_len_bounded(self@);
        }
        self.selected_indices.len() as i32
    }

    /// Starts selecting at line `index` of the page: the item there is
    /// selected and focused.
    pub fn set_initial_selection(&mut self, index: i32)
        requires
            old(self)@.wf(),
            in_bound(index as int, index_bound()),
        ensures
            final(self)@ == old(self)@.set_initial_selection(index as int),
            final(self)@.wf(),
    {
        let container_index = index + self.start_index;
        self.selecting_items = true;
        self.select(container_index);
        self.update_selection(index);
    }

    fn get_item(&self, index: i32) -> (r: Option<&Item>)
        requires
            self@.wf(),
        ensures
            match r {
                Some(item) => 0 <= index < self@.n() && *item == self@.items[index as int],
                None => !(0 <= index < self@.n()),
            },
    {
        let items_size = self.items.len() as i32;
        if index >= 0 && index < items_size {
            return Some(&self.items[index as usize]);
        }
        None
    }

    fn get_item_mut(&mut self, index: i32) -> (r: Option<&mut Item>)
        requires
            old(self)@.wf(),
        ensures
            match r {
                Some(item) => {
                    &&& 0 <= index < old(self)@.n()
                    &&& *item == old(self)@.items[index as int]
                    &&& final(self)@ == (SelectionView { items: old(self)@.items.update(index as int, *final(item)), ..old(self)@ })
                },
                None => !(0 <= index < old(self)@.n()) && final(self)@ == old(self)@,
            },
    {
        let items_size = self.items.len() as i32;
        if index >= 0 && index < items_size {
            return Some(&mut self.items[index as usize]);
        }
        None
    }
}

impl ListSelection for ItemListSelection {
    open spec fn well_formed(&self) -> bool {
        self@.wf()
    }

    open spec fn page_size(&self) -> int {
        self@.page_line_count
    }

    open spec fn focused_line(&self) -> int {
        self@.current_index
    }

    /// The page shown, counted from 1.
    fn get_page_number(&self) -> (r: i32)
        ensures
            r == self@.page_number(),
    {
        (self.start_index / self.page_line_count) + 1
    }

    /// The number of pages the items fill.
    fn get_total_pages(&self) -> (r: i32)
        ensures
            r == self@.total_pages(),
    {
        if self.items.len() == 0 {
            0
        } else if (self.items.len() as i32) < self.page_line_count {
            1
        } else if self.page_line_count == 0 {
            i32::MAX
        } else {
            let item_count = self.items.len() as i32;
            (item_count + self.page_line_count - 1) / self.page_line_count
        }
    }

    fn get_start_index(&self) -> (r: i32)
        ensures
            r == self@.start_index,
    {
        self.start_index
    }

    fn get_container_index(&self) -> (r: Option<i32>)
        ensures
            opt_int(r) == self@.container_index,
    {
        self.container_index
    }

    fn get_true_index(&self) -> (r: i32)
        ensures
            r == self@.true_index,
    {
        self.true_index
    }

    /// The item on the focused line, if there is one.
    fn get_focused_item(&self) -> (r: Option<&Item>)
        ensures
            match r {
                Some(item) => 0 <= self@.true_index < self@.n() && *item == self@.items[self@.true_index],
                None => !(0 <= self@.true_index < self@.n()),
            },
    {
        self.get_item(self.true_index)
    }

    /// The position in the list of the last line of the page that holds an item.
    fn get_end_of_page_index(&mut self) -> (r: i32)
        ensures
            *final(self) == *old(self),
            r == old(self)@.start_index + old(self)@.max_selection_index(),
    {
        self.start_index + self.determine_max_selection_index()
    }

    fn get_items(&self) -> (r: &Vec<Item>)
        ensures
            r@ == self@.items,
    {
        &self.items
    }

    fn get_items_mut(&mut self) -> (r: &mut Vec<Item>)
        ensures
            r@ == old(self)@.items,
            final(self)@ == (SelectionView { items: final(r)@, ..old(self)@ }),
    {
        &mut self.items
    }

    /// Copies of the selected items, in selection order.
    fn get_selected_items(&self) -> (r: VecDeque<Item>)
        ensures
            r@ == self@.selected_items,
    {
        let r = self.selected_items.clone();
        assert(r@ =~= self.selected_items@);
        r
    }

    fn is_selecting(&self) -> (r: bool)
        ensures
            r == self@.is_selecting(),
    {
        self.selecting_items || self.selected_items.len() != 0
    }

    /// Starts selecting at the focused item, or stops selecting.
    fn toggle_select(&mut self)
        ensures
            final(self)@ == old(self)@.toggle_select(),
            final(self)@.wf(),
    {
        self.selecting_items = !self.selecting_items;
        if self.selecting_items {
            self.pivot_index = Some(self.true_index);
            self.select(self.true_index);
            self.update_indices(self.current_index);
        }
    }

    /// Drops the selection and stops selecting.
    fn cancel_selection(&mut self)
        ensures
            final(self)@ == old(self)@.cancel_selection(),
            old(self)@.wf() ==> final(self)@.wf(),
    {
        self.selecting_items = false;
        self.selected_items.clear();
        self.selected_indices.clear();
        self.pivot_index = None;
        self.container_index = None;
        assert(self@.selected_indices =~= Seq::<int>::empty());
    }

    fn is_selected(&self, index: i32) -> (r: bool)
        ensures
            r == self@.is_selected(index as int),
    {
        match self.selected_position(index) {
            Some(k) => {
                assert(self@.selected_indices[k as int] == index as int);
                true
            },
            None => false,
        }
    }


    fn is_focused(&self, index: i32) -> (r: bool)
        ensures
            r == (self@.start_index + self@.current_index == index),
    {
        let true_index = self.start_index + self.current_index;
        true_index == index
    }

    fn select(&mut self, index: i32)
        ensures
            final(self)@ == old(self)@.select(index as int),
            final(self)@.wf(),
    {
        let ghost s0 = self@;
        if !self.has_pivot_point() {
            self.pivot_index = Some(index);
        }
        if !self.is_selected(index) && index >= 0 && (index as usize) < self.items.len() {
            let item = self.items[index as usize].clone();
            let push_back = match self.previous_container_index {
                Some(p) => p <= index,
                None => false,
            };
            proof {
                lemma_ints_push(self.selected_indices@, index);
            }
            if push_back {
                self.selected_indices.push_back(index);
                self.selected_items.push_back(item);
            } else {
                self.selected_indices.push_front(index);
                self.selected_items.push_front(item);
            }
        }
        proof {
            lemma_select_keeps_wf(s0, index as int);
        }
    }


    fn deselect(&mut self, index: i32)
        ensures
            final(self)@ == old(self)@.deselect(index as int),
            final(self)@.wf(),
    {
        let ghost s0 = self@;
        if index >= 0 && (index as usize) < self.items.len() {
            match self.selected_position(index) {
                Some(k) => {
                    proof {
                        let a = s0.selected_indices;
                        assert(a[k as int] == index as int);
                        assert(a.contains(index as int));
                        let j = a.index_of(index as int);
                        assert(a[j] == index as int);
                        assert(j == k as int);
                        lemma_ints_remove(self.selected_indices@, k as int);
                    }
                    self.selected_indices.remove(k);
                    self.selected_items.remove(k);
                    match self.container_index {
                        Some(idx) => {
                            if idx == index {
                                self.container_index = None;
                            }
                        },
                        None => {},
                    }
                },
                None => {},
            }
        }
        proof {
            lemma_deselect_keeps_wf(s0, index as int);
        }
    }

    /// Moves the focus to the top of the page, or back a page from its top.
    fn page_up(&mut self)
        ensures
            final(self)@ == old(self)@.page_up(),
            final(self)@.wf(),
    {
        let mut new_index = self.current_index;
        if self.should_turn_to_previous_page(self.current_index) {
            self.start_index = self.start_index - self.page_line_count;
            if self.selecting_items {
                self.select_range(new_index, self.current_index);
            }
            new_index = self.determine_max_selection_index();
        } else if self.current_index == 0 {
            new_index = 0;
            self.start_index = 0;
        } else {
            new_index = 0;
        }
        self.update_selection(new_index);
    }

    /// Moves the focus to the bottom of the page, or on a page from its bottom.
    fn page_down(&mut self)
        ensures
            final(self)@ == old(self)@.page_down(),
            final(self)@.wf(),
    {
        let new_index;
        if self.should_turn_to_next_page(self.current_index) {
            new_index = 0;
            self.start_index = self.start_index + self.page_line_count;
        } else {
            new_index = self.determine_max_selection_index();
        }
        self.update_selection(new_index);
    }

    /// Moves the focus up a line, scrolling at the top of the page.
    fn move_up(&mut self)
        ensures
            final(self)@ == old(self)@.move_up(),
            final(self)@.wf(),
            old(self)@.page_line_count > 0 && old(self)@.current_index >= 0
                && old(self)@.start_index + old(self)@.current_index >= 1
                ==> final(self)@.start_index + final(self)@.current_index
                    == old(self)@.start_index + old(self)@.current_index - 1,
    {
        proof {
            if self@.page_line_count > 0 && self@.current_index >= 0 && self@.start_index + self@.current_index >= 1 {
                lemma_move_up_focuses_previous_item(self@);
            }
        }
        let mut new_index = self.current_index;
        if self.current_index > 0 {
            new_index = self.current_index - 1;
        } else if self.should_scroll_up(self.current_index) {
            self.start_index = self.start_index - 1;
        } else if self.current_index == 0 && self.start_index > 0 {
            new_index = self.current_index - 1;
        }
        self.update_selection(new_index);
    }

    /// Moves the focus down a line, scrolling at the bottom of the page.
    fn move_down(&mut self)
        ensures
            final(self)@ == old(self)@.move_down(),
            final(self)@.wf(),
            old(self)@.page_line_count > 0 && 0 <= old(self)@.start_index
                && 0 <= old(self)@.current_index <= old(self)@.max_selection_index()
                && old(self)@.start_index + old(self)@.current_index + 1 < old(self)@.n()
                ==> final(self)@.start_index + final(self)@.current_index
                    == old(self)@.start_index + old(self)@.current_index + 1,
    {
        proof {
            if self@.page_line_count > 0 && 0 <= self@.start_index
                && 0 <= self@.current_index <= self@.max_selection_index()
                && self@.start_index + self@.current_index + 1 < self@.n() {
                lemma_move_down_focuses_next_item(self@);
            }
        }
        let mut new_index = self.current_index;
        let max_selection_index = self.determine_max_selection_index();
        let true_index = self.start_index + new_index;
        let valid_index = true_index < self.items.len() as i32;
        let less_than_max = self.current_index < max_selection_index;
        if valid_index && less_than_max {
            new_index = self.current_index + 1;
        } else if valid_index && self.should_scroll_down(self.current_index) {
            self.start_index = self.start_index + 1;
        }
        self.update_selection(new_index);
    }
}

} // verus!
