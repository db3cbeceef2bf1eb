use vstd::prelude::*;

verus! {

/// Header format flag: the column is sorted ascending.
pub const HDF_SORTUP: i32 = 0x0400;

/// Header format flag: the column is sorted descending.
pub const HDF_SORTDOWN: i32 = 0x0200;

/// The width every column starts with.
pub const COLUMN_WIDTH: i32 = 200;

/// The next sort state of a column: descending becomes unsorted, ascending
/// becomes descending, unsorted becomes ascending; other format bits stay.
pub open spec fn next_order_spec(current: i32) -> i32 {
    if current & HDF_SORTDOWN == HDF_SORTDOWN {
        current & !HDF_SORTDOWN
    } else if current & HDF_SORTUP == HDF_SORTUP {
        (current & !HDF_SORTUP) | HDF_SORTDOWN
    } else {
        current | HDF_SORTUP
    }
}

/// Moves a column's format word to its next sort state.
pub fn next_order(current: i32) -> (r: i32)
    ensures
        r == next_order_spec(current),
        current & (HDF_SORTUP | HDF_SORTDOWN) == 0 ==> r == current | HDF_SORTUP,
        current & HDF_SORTUP != 0 && current & HDF_SORTDOWN == 0 ==> r == (current & !HDF_SORTUP)
            | HDF_SORTDOWN,
        current & HDF_SORTDOWN != 0 ==> r == current & !HDF_SORTDOWN,
{
    proof {
        law_next_order_follows_arrow(current);
    }
    if current & HDF_SORTDOWN == HDF_SORTDOWN {
        current & !HDF_SORTDOWN
    } else if current & HDF_SORTUP == HDF_SORTUP {
        (current & !HDF_SORTUP) | HDF_SORTDOWN
    } else {
        current | HDF_SORTUP
    }
}

/// The format word with the sort arrow removed.
pub fn reset_order(current: i32) -> (r: i32)
    ensures
        r == current & !HDF_SORTUP & !HDF_SORTDOWN,
{
    current & !HDF_SORTUP & !HDF_SORTDOWN
}

/// Which arrow comes next depends on the arrow bits alone: a column with no
/// arrow gets the ascending one, an ascending column turns descending, and a
/// descending column loses its arrow; every other bit of the word is kept.
pub proof fn law_next_order_follows_arrow(current: i32)
    by (bit_vector)
    ensures
        current & (HDF_SORTUP | HDF_SORTDOWN) == 0 ==> next_order_spec(current) == current
            | HDF_SORTUP,
        current & HDF_SORTUP != 0 && current & HDF_SORTDOWN == 0 ==> next_order_spec(current) == (
        current & !HDF_SORTUP) | HDF_SORTDOWN,
        current & HDF_SORTDOWN != 0 ==> next_order_spec(current) == current & !HDF_SORTDOWN,
{
}

/// `next_order` applied `k` times.
pub open spec fn next_order_times(current: i32, k: nat) -> i32
    decreases k,
{
    if k == 0 {
        current
    } else {
        next_order_spec(next_order_times(current, (k - 1) as nat))
    }
}

/// Changing the sort state never touches the other format bits: removing
/// the arrow after any number of steps gives what removing it at once gives.
pub proof fn law_next_order_keeps_format(current: i32, k: nat)
    ensures
        next_order_times(current, k) & !HDF_SORTUP & !HDF_SORTDOWN == current & !HDF_SORTUP
            & !HDF_SORTDOWN,
    decreases k,
{
    if k > 0 {
        law_next_order_keeps_format(current, (k - 1) as nat);
        let p = next_order_times(current, (k - 1) as nat);
        assert(next_order_spec(p) & !0x0400i32 & !0x0200i32 == p & !0x0400i32 & !0x0200i32)
            by (bit_vector);
    }
}

/// From a column shown unsorted (or with one arrow), three steps come back
/// to where they started: unsorted, ascending, descending, unsorted.
pub proof fn law_next_order_cycles(current: i32)
    requires
        current & HDF_SORTUP == 0 || current & HDF_SORTDOWN == 0,
    ensures
        next_order_times(current, 3) == current,
{
    reveal_with_fuel(next_order_times, 4);
    assert(current & 0x0400i32 == 0 || current & 0x0200i32 == 0 ==> next_order_spec(
        next_order_spec(next_order_spec(current)),
    ) == current) by (bit_vector);
}

/// The column headers of the file list: the widths of its columns and the
/// column the list is sorted by.
pub struct ListHeader {
    sorted_by_column: usize,
    widths: Vec<i32>,
}

/// The sum of the first `n` widths.
pub open spec fn width_sum(widths: Seq<i32>, n: int) -> int
    decreases n,
{
    if n <= 0 {
        0
    } else {
        width_sum(widths, n - 1) + widths[n - 1]
    }
}

impl ListHeader {
    pub closed spec fn sorted_column(&self) -> usize {
        self.sorted_by_column
    }

    pub closed spec fn column_widths(&self) -> Seq<i32> {
        self.widths@
    }

    /// Three columns (name, path, size), each of the default width, sorted by the first.
    pub fn create() -> (r: ListHeader)
        ensures
            r.sorted_column() == 0,
            r.column_widths() == seq![COLUMN_WIDTH, COLUMN_WIDTH, COLUMN_WIDTH],
    {
        let widths = vec![COLUMN_WIDTH, COLUMN_WIDTH, COLUMN_WIDTH];
        ListHeader { sorted_by_column: 0, widths }
    }

    pub fn width_of(&self, column: usize) -> (r: i32)
        requires
            column < self.column_widths().len(),
        ensures
            r == self.column_widths()[column as int],
    {
        self.widths[column]
    }

    /// Where a column starts: the widths of the columns before it added up.
    pub fn offset_of(&self, column: usize) -> (r: i32)
        requires
            column <= self.column_widths().len(),
            forall|n: int| 0 <= n <= column ==> i32::MIN <= #[trigger] width_sum(self.column_widths(), n) <= i32::MAX,
        ensures
            r == width_sum(self.column_widths(), column as int),
    {
        let mut sum: i32 = 0;
        let mut i: usize = 0;
        while i < column
            invariant
                column <= self.widths@.len(),
                forall|n: int| 0 <= n <= column ==> i32::MIN <= #[trigger] width_sum(self.widths@, n) <= i32::MAX,
                0 <= i <= column,
                sum == width_sum(self.widths@, i as int),
            decreases column - i,
        {
            assert(width_sum(self.widths@, i + 1) == width_sum(self.widths@, i as int) + self.widths@[i as int]);
            sum = sum + self.widths[i];
            i = i + 1;
        }
        sum
    }

    /// Where column `column` of a row spanning `left` to `right` is painted:
    /// shifted right by the column's offset, and cut at the column's width.
    pub fn painting_position(&self, left: i32, right: i32, column: usize) -> (r: (i32, i32))
        requires
            column < self.column_widths().len(),
            forall|n: int| 0 <= n <= column ==> i32::MIN <= #[trigger] width_sum(self.column_widths(), n) <= i32::MAX,
            i32::MIN <= left + width_sum(self.column_widths(), column as int) <= i32::MAX,
            i32::MIN <= right + width_sum(self.column_widths(), column as int) <= i32::MAX,
            i32::MIN <= left + width_sum(self.column_widths(), column as int) + self.column_widths()[column as int] <= i32::MAX,
        ensures
            r.0 == left + width_sum(self.column_widths(), column as int),
            r.1 == if r.0 + self.column_widths()[column as int] < right + width_sum(self.column_widths(), column as int) {
                r.0 + self.column_widths()[column as int]
            } else {
                right + width_sum(self.column_widths(), column as int)
            },
    {
        let offset = self.offset_of(column);
        let new_left = left + offset;
        let shifted_right = right + offset;
        let max_width = new_left + self.width_of(column);
        let new_right = if max_width < shifted_right {
            max_width
        } else {
            shifted_right
        };
        (new_left, new_right)
    }

    /// A click on column `sub_item`: it becomes the column the list is
    /// sorted by. Gives the column whose arrow is to be removed, when the
    /// sorted column changes.
    pub fn select_sort_column(&mut self, sub_item: i32) -> (r: Option<usize>)
        requires
            sub_item >= 0,
        ensures
            final(self).sorted_column() == sub_item as usize,
            final(self).column_widths() == old(self).column_widths(),
            r == (if sub_item as usize != old(self).sorted_column() {
                Some(old(self).sorted_column())
            } else {
                None::<usize>
            }),
    {
        let column = sub_item as usize;
        if column != self.sorted_by_column {
            let previous = self.sorted_by_column;
            self.sorted_by_column = column;
            Some(previous)
        } else {
            None
        }
    }
}

} // verus!
