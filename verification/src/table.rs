//! A table of rows with a selected row that moves up and down, wrapping
//! around at the ends.
use vstd::prelude::*;
use crate::process_list::{ProcessInfoLine, ProcessList};
use crate::process_tree::{ProcessTree, TreeNode};

verus! {

/// Rows that a table shows.
pub trait TableRows {
    type Row;

    spec fn rows(&self) -> Seq<Self::Row>;

    fn len(&self) -> (n: usize)
        ensures
            n == self.rows().len(),
    ;

    fn row(&self, i: usize) -> (r: &Self::Row)
        requires
            i < self.rows().len(),
        ensures
            *r == self.rows()[i as int],
    ;
}

impl TableRows for ProcessList {
    type Row = ProcessInfoLine;

    open spec fn rows(&self) -> Seq<ProcessInfoLine> {
        self.0@
    }

    fn len(&self) -> (n: usize) {
        self.0.len()
    }

    fn row(&self, i: usize) -> (r: &ProcessInfoLine) {
        &self.0[i]
    }
}

impl TableRows for ProcessTree {
    type Row = TreeNode;

    open spec fn rows(&self) -> Seq<TreeNode> {
        self.0@
    }

    fn len(&self) -> (n: usize) {
        self.0.len()
    }

    fn row(&self, i: usize) -> (r: &TreeNode) {
        &self.0[i]
    }
}

/// Which row and column of a table are selected, and the first row shown.
#[derive(Debug, Default, Clone, Copy, PartialEq, Eq, Structural)]
pub struct SelectionState {
    pub selected: Option<usize>,
    pub selected_column: Option<usize>,
    pub offset: usize,
}

/// The state after selecting row `index`: the offset is reset when no row is
/// selected.
pub open spec fn select_spec(s: SelectionState, index: Option<usize>) -> SelectionState {
    SelectionState {
        selected: index,
        selected_column: s.selected_column,
        offset: if index is None {
            0
        } else {
            s.offset
        },
    }
}

impl SelectionState {
    /// Selects row `index` (`None`: no row, and the offset goes back to 0).
    pub fn select(&mut self, index: Option<usize>)
        ensures
            *final(self) == select_spec(*old(self), index),
    {
        self.selected = index;
        if index.is_none() {
            self.offset = 0;
        }
    }

    /// Selects column `index`.
    pub fn select_column(&mut self, index: Option<usize>)
        ensures
            *final(self) == (SelectionState { selected_column: index, ..*old(self) }),
    {
        self.selected_column = index;
    }
}

/// The row that moving down by `amount` selects in a table of `len` rows:
/// the row `amount` further on, or the first row when that is past the end
/// or nothing was selected.
pub open spec fn next_index(selected: Option<usize>, amount: usize, len: usize) -> usize {
    match selected {
        Some(i) => if i + amount >= len {
            0
        } else {
            (i + amount) as usize
        },
        None => 0,
    }
}

/// The row that moving up by `amount` selects in a table of `len` rows: from
/// the first row the last one; from another row the row `amount` before it,
/// or the first; the first row when nothing was selected.
pub open spec fn previous_index(selected: Option<usize>, amount: usize, len: usize) -> usize {
    match selected {
        Some(i) => if i == 0 {
            if len == 0 {
                0
            } else {
                (len - 1) as usize
            }
        } else if i >= amount {
            (i - amount) as usize
        } else {
            0
        },
        None => 0,
    }
}

/// A table: its rows and which of them is selected.
#[derive(Debug, Default)]
pub struct SelectableTable<C> {
    pub items: C,
    pub state: SelectionState,
}

impl<C: TableRows> SelectableTable<C> {
    /// A table of `items` with the first row and the first column selected.
    pub fn new(items: C) -> (r: Self)
        ensures
            r.items == items,
            r.state == (SelectionState { selected: Some(0), selected_column: Some(0), offset: 0 }),
    {
        let mut state = SelectionState { selected: None, selected_column: None, offset: 0 };
        state.select(Some(0));
        state.select_column(Some(0));
        SelectableTable { state, items }
    }

    /// The selected row, if one is selected and it exists.
    pub fn get_selected(&self) -> (r: Option<&C::Row>)
        ensures
            match self.state.selected {
                Some(i) => if i < self.items.rows().len() {
                    r matches Some(x) && *x == self.items.rows()[i as int]
                } else {
                    r is None
                },
                None => r is None,
            },
    {
        match self.state.selected {
            Some(i) => {
                if i < self.items.len() {
                    Some(self.items.row(i))
                } else {
                    None
                }
            },
            None => None,
        }
    }

    /// Selects the first row.
    pub fn select_first(&mut self)
        ensures
            final(self).items == old(self).items,
            final(self).state == select_spec(old(self).state, Some(0)),
    {
        self.state.select(Some(0));
    }

    /// Selects the last row (the first if there is none).
    pub fn select_last(&mut self)
        ensures
            final(self).items == old(self).items,
            final(self).state == select_spec(
                old(self).state,
                Some(
                    if old(self).items.rows().len() == 0 {
                        0
                    } else {
                        (old(self).items.rows().len() - 1) as usize
                    },
                ),
            ),
    {
        let n = self.items.len();
        self.state.select(Some(n.saturating_sub(1)));
    }

    /// Moves the selection down by `amount` rows, wrapping to the first.
    pub fn select_next(&mut self, amount: usize)
        ensures
            final(self).items == old(self).items,
            final(self).state == select_spec(
                old(self).state,
                Some(next_index(old(self).state.selected, amount, old(self).items.rows().len() as usize)),
            ),
    {
        let n = self.items.len();
        let i = match self.state.selected {
            Some(i) => {
                if i.saturating_add(amount) >= n {
                    0
                } else {
                    i.saturating_add(amount)
                }
            },
            None => 0,
        };
        self.state.select(Some(i));
    }

    /// Moves the selection up by `amount` rows; from the first row to the
    /// last.
    pub fn select_previous(&mut self, amount: usize)
        ensures
            final(self).items == old(self).items,
            final(self).state == select_spec(
                old(self).state,
                Some(
                    previous_index(old(self).state.selected, amount, old(self).items.rows().len() as usize),
                ),
            ),
    {
        let n = self.items.len();
        let i = match self.state.selected {
            Some(i) => {
                if i == 0 {
                    n.saturating_sub(1)
                } else {
                    i.saturating_sub(amount)
                }
            },
            None => 0,
        };
        self.state.select(Some(i));
    }
}

/// Law: in a table of `len > 0` rows, moving down one row and then up one
/// row selects again the row that was selected.
pub proof fn law_next_then_previous(i: usize, len: usize)
    requires
        i < len,
    ensures
        previous_index(Some(next_index(Some(i), 1, len)), 1, len) == i,
{
}

/// Law: in a table of `len > 0` rows, moving up one row and then down one
/// row selects again the row that was selected.
pub proof fn law_previous_then_next(i: usize, len: usize)
    requires
        i < len,
    ensures
        next_index(Some(previous_index(Some(i), 1, len)), 1, len) == i,
{
}

/// Law: in a table of `len > 0` rows whose selection is a row (or nothing),
/// moving the selection by any amount in either direction selects a row.
pub proof fn law_selection_stays_in_rows(selected: Option<usize>, amount: usize, len: usize)
    requires
        len > 0,
        selected matches Some(i) ==> i < len,
    ensures
        next_index(selected, amount, len) < len,
        previous_index(selected, amount, len) < len,
{
}

} // verus!
