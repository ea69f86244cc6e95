//! The 9×9 grid of cells, addressed row-major: cell `(row, column)` is entry
//! `9 * row + column` of a flat array of 81 cells, the same order as the
//! 81-character puzzle string and the persistence record.

use vstd::prelude::*;

use crate::cell::cell_inv;
use crate::cell::cell_reset;
use crate::cell::default_cell;
use crate::cell::Cell;
use crate::cell::CellModel;
use vstd::string::StrSliceExecFns;

verus! {

broadcast use vstd::array::group_array_axioms;

/// The flat index of cell `(row, column)`.
pub open spec fn cell_index(row: int, column: int) -> int {
    9 * row + column
}

/// A well-formed grid: 81 cells, each satisfying the cell invariant.
pub open spec fn grid_inv(g: Seq<CellModel>) -> bool {
    &&& g.len() == 81
    &&& forall|i: int| 0 <= i < 81 ==> cell_inv(#[trigger] g[i])
}

/// The cell that position `k` of a puzzle string holding `ch` parses to:
/// `'1'..='9'` is a given with that value; anything else (in particular
/// `'0'`) is a fresh empty cell.
pub open spec fn char_cell(ch: char) -> CellModel {
    if '1' <= ch && ch <= '9' {
        CellModel { value: ch as int - 48, initial: true, ..default_cell() }
    } else {
        default_cell()
    }
}

/// A fixed 9×9 array of cells.
#[derive(Clone, Copy, Debug)]
pub struct Grid {
    pub cells: [Cell; 81],
}

impl View for Grid {
    type V = Seq<CellModel>;

    open spec fn view(&self) -> Seq<CellModel> {
        Seq::new(81, |i: int| self.cells[i]@)
    }
}

impl Default for Grid {
    fn default() -> (g: Grid)
        ensures
            forall|i: int| 0 <= i < 81 ==> g@[i] == default_cell(),
            grid_inv(g@),
    {
        let d = Cell::default();
        let cells = [d; 81];
        proof {
            vstd::array::axiom_spec_array_fill_for_copy_type::<Cell, 81>(d);
        }
        Grid { cells }
    }
}

impl Grid {
    /// Build a grid from a flat 81-character puzzle string, row-major:
    /// character `k` fills cell `(k / 9, k % 9)`. Digits `'1'..='9'` become
    /// givens; `'0'` and any other character leave the cell empty.
    pub fn from(input: String) -> (g: Grid)
        requires
            input@.len() == 81,
        ensures
            forall|k: int| 0 <= k < 81 ==> g@[k] == char_cell(input@[k]),
            grid_inv(g@),
    {
        let mut g = Grid::default();
        proof {
            assert(forall|j: int| 0 <= j < 81 ==> (#[trigger] g.cells[j])@ == g@[j]);
        }
        let mut k: usize = 0;
        while k < 81
            invariant
                input@.len() == 81,
                k <= 81,
                forall|j: int| 0 <= j < k ==> (#[trigger] g.cells[j])@ == char_cell(input@[j]),
                forall|j: int| k <= j < 81 ==> (#[trigger] g.cells[j])@ == default_cell(),
            decreases 81 - k,
        {
            let ch = input.as_str().get_char(k);
            if '1' <= ch && ch <= '9' {
                let mut cell = g.cells[k];
                cell.initial = true;
                cell.value = (ch as usize) - 48;
                g.cells[k] = cell;
            }
            k += 1;
        }
        proof {
            assert(forall|k: int| 0 <= k < 81 ==> g@[k] == char_cell(input@[k]));
            assert(forall|i: int| 0 <= i < 81 ==> cell_inv(#[trigger] g@[i]));
        }
        g
    }

    /// Read-only access to cell `(row, column)`.
    pub fn cell_at(&self, row: usize, column: usize) -> (c: &Cell)
        requires
            row < 9,
            column < 9,
        ensures
            c@ == self@[cell_index(row as int, column as int)],
    {
        &self.cells[row * 9 + column]
    }

    /// Revert every override color in the grid — each cell's own pair and
    /// each candidate slot's — to its stored default. Values, given flags
    /// and note flags are untouched.
    pub fn reset_markings(&mut self)
        ensures
            final(self)@ == Seq::new(81, |i: int| cell_reset(old(self)@[i])),
    {
        let mut k: usize = 0;
        while k < 81
            invariant
                k <= 81,
                forall|j: int|
                    0 <= j < k ==> (#[trigger] self.cells[j])@ == cell_reset(old(self).cells[j]@),
                forall|j: int| k <= j < 81 ==> (#[trigger] self.cells[j])@ == old(self).cells[j]@,
            decreases 81 - k,
        {
            let mut cell = self.cells[k];
            cell.reset_colors();
            self.cells[k] = cell;
            k += 1;
        }
        proof {
            assert(self@ =~= Seq::new(81, |i: int| cell_reset(old(self)@[i])));
        }
    }
}

} // verus!
