//! The stateful engine: a grid plus a cursor, and every mutating operation
//! a user intent maps to — navigation, committing a digit with its
//! elimination pass, note toggling, highlighting, marking, color reset and
//! candidate autofill.
//!
//! Each operation has a spec-level transform on [`BoardModel`]; the
//! executable method's contract says the new board is exactly that
//! transform of the old one. The transforms are also what the laws in
//! [`crate::laws`] are proved about.

use vstd::prelude::*;

use crate::cell::cell_eliminate;
use crate::cell::cell_inv;
use crate::cell::cell_reset;
use crate::cell::CellModel;
use crate::cell::CellOption;
use crate::color::default_theme;
use crate::color::Color;
use crate::color::Theme;
use crate::grid::cell_index;
use crate::grid::grid_inv;
use crate::grid::Grid;

verus! {

broadcast use vstd::array::group_array_axioms;

/// The engine: the grid it owns and the cursor, `(row, column)`.
pub struct Board {
    pub grid: Grid,
    pub current_position: (usize, usize),
}

/// The mathematical model of a board: the 81 cell models in row-major
/// order, and the cursor coordinates.
#[verifier::ext_equal]
pub ghost struct BoardModel {
    pub cells: Seq<CellModel>,
    pub row: int,
    pub col: int,
}

impl View for Board {
    type V = BoardModel;

    open spec fn view(&self) -> BoardModel {
        BoardModel {
            cells: self.grid@,
            row: self.current_position.0 as int,
            col: self.current_position.1 as int,
        }
    }
}

/// A well-formed board: a well-formed grid and a cursor inside it.
pub open spec fn board_inv(m: BoardModel) -> bool {
    &&& grid_inv(m.cells)
    &&& 0 <= m.row < 9
    &&& 0 <= m.col < 9
}

/// One step towards row 0, wrapping to row 8 from row 0.
pub open spec fn wrap_dec(i: int) -> int {
    (i + 8) % 9
}

/// One step away from row 0, wrapping to 0 from 8.
pub open spec fn wrap_inc(i: int) -> int {
    (i + 1) % 9
}

/// The board after the cursor moves up one row.
pub open spec fn spec_move_up(m: BoardModel) -> BoardModel {
    BoardModel { row: wrap_dec(m.row), ..m }
}

/// The board after the cursor moves down one row.
pub open spec fn spec_move_down(m: BoardModel) -> BoardModel {
    BoardModel { row: wrap_inc(m.row), ..m }
}

/// The board after the cursor moves one column to the right.
pub open spec fn spec_move_right(m: BoardModel) -> BoardModel {
    BoardModel { col: wrap_inc(m.col), ..m }
}

/// The board after the cursor moves one column to the left.
pub open spec fn spec_move_left(m: BoardModel) -> BoardModel {
    BoardModel { col: wrap_dec(m.col), ..m }
}

/// The board with every override color reverted to its default.
pub open spec fn spec_reset_colors(m: BoardModel) -> BoardModel {
    BoardModel { cells: Seq::new(81, |i: int| cell_reset(m.cells[i])), ..m }
}

/// The origin (smallest row or column) of the 3×3 box holding row or
/// column `v`.
pub open spec fn box_origin(v: int) -> int {
    v - v % 3
}

/// Does flat index `i` lie in row `r`?
pub open spec fn in_row(i: int, r: int) -> bool {
    i / 9 == r
}

/// Does flat index `i` lie in column `c`?
pub open spec fn in_col(i: int, c: int) -> bool {
    i % 9 == c
}

/// Does flat index `i` lie in the 3×3 box holding cell `(r, c)`?
pub open spec fn in_box(i: int, r: int, c: int) -> bool {
    &&& box_origin(r) <= i / 9 < box_origin(r) + 3
    &&& box_origin(c) <= i % 9 < box_origin(c) + 3
}

/// Does flat index `i` share a row, column or box with cell `(r, c)`?
pub open spec fn in_peer_group(i: int, r: int, c: int) -> bool {
    in_row(i, r) || in_col(i, c) || in_box(i, r, c)
}

/// The board after digit `d` is committed at the cursor (`d == 0` clears
/// the cell). Nothing moves when the cursor's cell is a given. Otherwise
/// the cell's value becomes `d`, and — unless `d == 0` — digit `d` is
/// eliminated as a candidate on every cell of the cursor's row, column and
/// box, the cursor's own cell included.
pub open spec fn spec_set_value(m: BoardModel, d: int) -> BoardModel {
    let k = cell_index(m.row, m.col);
    if m.cells[k].initial {
        m
    } else {
        let committed = m.cells.update(k, CellModel { value: d, ..m.cells[k] });
        if d == 0 {
            BoardModel { cells: committed, ..m }
        } else {
            BoardModel {
                cells: Seq::new(
                    81,
                    |i: int|
                        if in_peer_group(i, m.row, m.col) {
                            cell_eliminate(committed[i], d)
                        } else {
                            committed[i]
                        },
                ),
                ..m
            }
        }
    }
}

/// The board after the note for digit `d` is flipped at the cursor's cell.
/// A given cell is left untouched. Otherwise the cell is vacated (its value
/// becomes 0) and slot `d - 1` flips: when the flip makes it a live note it
/// takes the active-note colors, when it clears it the slot's colors revert.
pub open spec fn spec_toggle_option(m: BoardModel, d: int) -> BoardModel {
    let k = cell_index(m.row, m.col);
    let c = m.cells[k];
    if c.initial {
        m
    } else {
        let o = c.slots[d - 1];
        let o2 = if !o.valid {
            CellOption { valid: true, bg: default_theme().red, fg: default_theme().white, ..o }
        } else {
            CellOption { valid: false, bg: o.default_bg, fg: o.default_fg, ..o }
        };
        BoardModel {
            cells: m.cells.update(k, (CellModel { value: 0, slots: c.slots.update(d - 1, o2), ..c })),
            ..m
        }
    }
}

/// One cell under `highlight(d)`: a cell committed to `d` takes the
/// highlight pair itself; otherwise, if its slot for `d` is a live note,
/// that slot takes the pair; every other cell keeps its colors.
pub open spec fn highlight_cell(c: CellModel, d: int) -> CellModel {
    if c.value == d {
        CellModel { bg: default_theme().blue, fg: default_theme().black, ..c }
    } else if c.slots[d - 1].valid {
        CellModel {
            slots: c.slots.update(
                d - 1,
                (CellOption { bg: default_theme().blue, fg: default_theme().black, ..c.slots[d - 1] }),
            ),
            ..c
        }
    } else {
        c
    }
}

/// The board after `highlight(d)`: a no-op for `d == 0`, else every cell
/// highlighted as [`highlight_cell`] says. Colors accumulate over calls.
pub open spec fn spec_highlight(m: BoardModel, d: int) -> BoardModel {
    if d == 0 {
        m
    } else {
        BoardModel { cells: Seq::new(81, |i: int| highlight_cell(m.cells[i], d)), ..m }
    }
}

/// The board after `highlight_only(d)`: every override color reverted
/// first, then `highlight(d)`, so exactly the matches of `d` are colored.
pub open spec fn spec_highlight_only(m: BoardModel, d: int) -> BoardModel {
    spec_highlight(spec_reset_colors(m), d)
}

/// The board after `mark(d, color)` at the cursor's cell: on an empty cell
/// whose slot for `d` is a live note, that slot takes `color` with the
/// contrast foreground; on a committed cell the cell itself takes them; an
/// empty cell without that note is left untouched.
pub open spec fn spec_mark(m: BoardModel, d: int, color: Color) -> BoardModel {
    let k = cell_index(m.row, m.col);
    let c = m.cells[k];
    if c.value == 0 && c.slots[d - 1].valid {
        BoardModel {
            cells: m.cells.update(
                k,
                (CellModel {
                    slots: c.slots.update(
                        d - 1,
                        (CellOption { bg: color, fg: default_theme().black, ..c.slots[d - 1] }),
                    ),
                    ..c
                }),
            ),
            ..m
        }
    } else if c.value != 0 {
        BoardModel {
            cells: m.cells.update(k, (CellModel { bg: color, fg: default_theme().black, ..c })),
            ..m
        }
    } else {
        m
    }
}

/// Is `v` the committed value of some cell in row `r`?
pub open spec fn value_in_row(cells: Seq<CellModel>, r: int, v: int) -> bool {
    exists|j: int| 0 <= j < 9 && cells[cell_index(r, j)].value == v
}

/// Is `v` the committed value of some cell in column `c`?
pub open spec fn value_in_col(cells: Seq<CellModel>, c: int, v: int) -> bool {
    exists|j: int| 0 <= j < 9 && cells[cell_index(j, c)].value == v
}

/// Is `v` the committed value of some cell in the box holding `(r, c)`?
pub open spec fn value_in_box(cells: Seq<CellModel>, r: int, c: int, v: int) -> bool {
    exists|a: int, b: int|
        box_origin(r) <= a < box_origin(r) + 3 && box_origin(c) <= b < box_origin(c) + 3 && (
        #[trigger] cells[cell_index(a, b)]).value == v
}

/// May digit `v` still go at `(r, c)`: no committed cell of the row, the
/// column or the box already holds it.
pub open spec fn candidate_possible(cells: Seq<CellModel>, r: int, c: int, v: int) -> bool {
    &&& !value_in_box(cells, r, c, v)
    &&& !value_in_row(cells, r, v)
    &&& !value_in_col(cells, c, v)
}

/// One cell after the autofill pass over `cells`: a committed cell is
/// untouched; on an empty cell every digit that may still go there becomes
/// a live note. Nothing is ever removed and no colors move.
pub open spec fn autofill_cell(cells: Seq<CellModel>, i: int) -> CellModel {
    let c = cells[i];
    if c.value != 0 {
        c
    } else {
        CellModel {
            slots: Seq::new(
                c.slots.len(),
                |j: int|
                    if candidate_possible(cells, i / 9, i % 9, j + 1) {
                        CellOption { valid: true, ..c.slots[j] }
                    } else {
                        c.slots[j]
                    },
            ),
            ..c
        }
    }
}

/// The board after `autofill()`: one pass over the old cells, no
/// fixed-point iteration — every possibility is judged against the
/// committed values as they stood when the pass began.
pub open spec fn spec_autofill(m: BoardModel) -> BoardModel {
    BoardModel { cells: Seq::new(81, |i: int| autofill_cell(m.cells, i)), ..m }
}

/// Whether a digit may still go at a position depends only on the
/// committed values, so it is unchanged while a pass touches note flags.
pub proof fn lemma_possible_values_only(
    a: Seq<CellModel>,
    b: Seq<CellModel>,
    r: int,
    c: int,
    v: int,
)
    requires
        a.len() == 81,
        b.len() == 81,
        forall|i: int| 0 <= i < 81 ==> (#[trigger] a[i]).value == b[i].value,
        0 <= r < 9,
        0 <= c < 9,
    ensures
        candidate_possible(a, r, c, v) == candidate_possible(b, r, c, v),
{
    if value_in_row(a, r, v) {
        let j = choose|j: int| 0 <= j < 9 && a[cell_index(r, j)].value == v;
        assert(b[cell_index(r, j)].value == v);
    }
    if value_in_row(b, r, v) {
        let j = choose|j: int| 0 <= j < 9 && b[cell_index(r, j)].value == v;
        assert(a[cell_index(r, j)].value == v);
    }
    if value_in_col(a, c, v) {
        let j = choose|j: int| 0 <= j < 9 && a[cell_index(j, c)].value == v;
        assert(b[cell_index(j, c)].value == v);
    }
    if value_in_col(b, c, v) {
        let j = choose|j: int| 0 <= j < 9 && b[cell_index(j, c)].value == v;
        assert(a[cell_index(j, c)].value == v);
    }
    if value_in_box(a, r, c, v) {
        let (p, q) = choose|p: int, q: int|
            box_origin(r) <= p < box_origin(r) + 3 && box_origin(c) <= q < box_origin(c) + 3 && (
            #[trigger] a[cell_index(p, q)]).value == v;
        assert(b[cell_index(p, q)].value == v);
    }
    if value_in_box(b, r, c, v) {
        let (p, q) = choose|p: int, q: int|
            box_origin(r) <= p < box_origin(r) + 3 && box_origin(c) <= q < box_origin(c) + 3 && (
            #[trigger] b[cell_index(p, q)]).value == v;
        assert(a[cell_index(p, q)].value == v);
    }
}

/// Eliminating the same candidate twice is the same as eliminating it once.
pub proof fn lemma_eliminate_idempotent(c: CellModel, d: int)
    requires
        1 <= d <= 9,
        c.slots.len() == 9,
    ensures
        cell_eliminate(cell_eliminate(c, d), d) == cell_eliminate(c, d),
{
    assert(cell_eliminate(cell_eliminate(c, d), d).slots =~= cell_eliminate(c, d).slots);
    assert(cell_eliminate(cell_eliminate(c, d), d) =~= cell_eliminate(c, d));
}

/// Which cells of the cursor's row and column the elimination pass has
/// already touched, after `n` steps of its row-and-column sweep.
spec fn rc_touched(j: int, r: int, c: int, n: int) -> bool {
    (j / 9 == r && j % 9 < n) || (j % 9 == c && j / 9 < n)
}

/// Position of flat index `j` inside the box with origins `(by, bx)`, in
/// the order the elimination pass walks the box.
spec fn box_pos(j: int, by: int, bx: int) -> int {
    3 * (j / 9 - by) + (j % 9 - bx)
}

/// Does no committed cell of the row, the column or the box of `(y, x)`
/// hold `v`?
fn no_conflict(g: &Grid, y: usize, x: usize, v: usize) -> (b: bool)
    requires
        y < 9,
        x < 9,
        1 <= v <= 9,
    ensures
        b == candidate_possible(g@, y as int, x as int, v as int),
{
    let by = y - y % 3;
    let bx = x - x % 3;
    let mut t: usize = 0;
    while t < 9
        invariant
            t <= 9,
            y < 9,
            x < 9,
            1 <= v <= 9,
            by == box_origin(y as int),
            bx == box_origin(x as int),
            forall|p: int, q: int|
                by <= p < by + 3 && bx <= q < bx + 3 && 3 * (p - by) + (q - bx) < t ==> (
                #[trigger] g.cells[cell_index(p, q)])@.value != v as int,
        decreases 9 - t,
    {
        let kb = (by + t / 3) * 9 + (bx + t % 3);
        proof {
            assert(kb as int == cell_index(by + t as int / 3, bx + t as int % 3));
        }
        if g.cells[kb].value == v {
            proof {
                let p = by + t as int / 3;
                let q = bx + t as int % 3;
                assert(g@[cell_index(p, q)].value == v as int);
                assert(value_in_box(g@, y as int, x as int, v as int));
            }
            return false;
        }
        t += 1;
    }
    let mut i: usize = 0;
    while i < 9
        invariant
            i <= 9,
            y < 9,
            x < 9,
            1 <= v <= 9,
            forall|s: int| 0 <= s < i ==> g.cells[cell_index(y as int, s)]@.value != v as int,
            forall|s: int| 0 <= s < i ==> g.cells[cell_index(s, x as int)]@.value != v as int,
            !value_in_box(g@, y as int, x as int, v as int),
        decreases 9 - i,
    {
        let kr = y * 9 + i;
        if g.cells[kr].value == v {
            proof {
                assert(kr as int == cell_index(y as int, i as int));
                assert(g@[cell_index(y as int, i as int)].value == v as int);
                assert(value_in_row(g@, y as int, v as int));
            }
            return false;
        }
        let kc = i * 9 + x;
        if g.cells[kc].value == v {
            proof {
                assert(kc as int == cell_index(i as int, x as int));
                assert(g@[cell_index(i as int, x as int)].value == v as int);
                assert(value_in_col(g@, x as int, v as int));
            }
            return false;
        }
        i += 1;
    }
    proof {
        assert(forall|j: int| 0 <= j < 81 ==> g@[j] == (#[trigger] g.cells[j])@);
        assert(!value_in_row(g@, y as int, v as int));
        assert(!value_in_col(g@, x as int, v as int));
    }
    true
}

impl Default for Board {
    fn default() -> (b: Board)
        ensures
            board_inv(b@),
            forall|i: int| 0 <= i < 81 ==> b@.cells[i] == crate::cell::default_cell(),
            b@.row == 0 && b@.col == 0,
    {
        Board { grid: Grid::default(), current_position: (0, 0) }
    }
}

impl Board {
    /// A board over `grid`, with the cursor at the top-left cell.
    pub fn from(grid: Grid) -> (b: Board)
        ensures
            b@.cells == grid@,
            b@.row == 0 && b@.col == 0,
    {
        Board { grid: grid, current_position: (0, 0) }
    }

    /// Move the cursor one row up, wrapping from row 0 to row 8.
    pub fn move_up(&mut self)
        requires
            board_inv(old(self)@),
        ensures
            board_inv(final(self)@),
            final(self)@ == spec_move_up(old(self)@),
    {
        self.current_position = ((9 + self.current_position.0 - 1) % 9, self.current_position.1);
    }

    /// Move the cursor one row down, wrapping from row 8 to row 0.
    pub fn move_down(&mut self)
        requires
            board_inv(old(self)@),
        ensures
            board_inv(final(self)@),
            final(self)@ == spec_move_down(old(self)@),
    {
        self.current_position = ((self.current_position.0 + 1) % 9, self.current_position.1);
    }

    /// Move the cursor one column to the right, wrapping from column 8 to 0.
    pub fn move_right(&mut self)
        requires
            board_inv(old(self)@),
        ensures
            board_inv(final(self)@),
            final(self)@ == spec_move_right(old(self)@),
    {
        self.current_position = (self.current_position.0, (self.current_position.1 + 1) % 9);
    }

    /// Move the cursor one column to the left, wrapping from column 0 to 8.
    pub fn move_left(&mut self)
        requires
            board_inv(old(self)@),
        ensures
            board_inv(final(self)@),
            final(self)@ == spec_move_left(old(self)@),
    {
        self.current_position = (self.current_position.0, (9 + self.current_position.1 - 1) % 9);
    }

    /// Revert every override color on the grid to its stored default.
    /// Values, given flags and note flags are untouched.
    pub fn reset_colors(&mut self)
        requires
            board_inv(old(self)@),
        ensures
            board_inv(final(self)@),
            final(self)@ == spec_reset_colors(old(self)@),
    {
        self.grid.reset_markings();
        proof {
            assert(self@.cells =~= spec_reset_colors(old(self)@).cells);
            assert(forall|i: int|
                0 <= i < 81 ==> cell_inv(#[trigger] self@.cells[i]) == cell_inv(
                    old(self)@.cells[i],
                ));
        }
    }

    /// Drop digit `value` as a live note on cell `k` and revert that slot's
    /// colors; nothing else moves.
    fn eliminate_candidate(&mut self, k: usize, value: usize)
        requires
            k < 81,
            1 <= value <= 9,
        ensures
            forall|j: int|
                0 <= j < 81 && j != k ==> (#[trigger] final(self).grid.cells[j]) == old(
                    self,
                ).grid.cells[j],
            final(self).grid.cells[k as int]@ == cell_eliminate(
                old(self).grid.cells[k as int]@,
                value as int,
            ),
            final(self).current_position == old(self).current_position,
    {
        let mut cell = self.grid.cells[k];
        cell.remove_option(value);
        let mut o = cell.options.values[value - 1];
        o.reset_colors();
        cell.options.values[value - 1] = o;
        self.grid.cells[k] = cell;
        proof {
            assert(cell@.slots =~= cell_eliminate(
                old(self).grid.cells[k as int]@,
                value as int,
            ).slots);
            assert(cell@ =~= cell_eliminate(old(self).grid.cells[k as int]@, value as int));
        }
    }

    /// Commit `value` at the cursor's cell (`0` clears it back to empty).
    ///
    /// A given cell is left untouched. Otherwise the cell's value becomes
    /// `value`, and — unless `value == 0` — the committed digit is dropped
    /// as a candidate, with its slot colors reverted, on every cell of the
    /// cursor's row, column and 3×3 box.
    pub fn set_value(&mut self, value: usize)
        requires
            board_inv(old(self)@),
            value <= 9,
        ensures
            board_inv(final(self)@),
            final(self)@ == spec_set_value(old(self)@, value as int),
    {
        let y = self.current_position.0;
        let x = self.current_position.1;
        let k0 = y * 9 + x;
        if self.grid.cells[k0].initial {
            return ;
        }
        let mut cell = self.grid.cells[k0];
        cell.set_value(value);
        self.grid.cells[k0] = cell;
        let ghost cells0 = self@.cells;
        proof {
            assert(cells0 =~= old(self)@.cells.update(
                k0 as int,
                (CellModel { value: value as int, ..old(self)@.cells[k0 as int] }),
            ));
            assert(forall|j: int| 0 <= j < 81 ==> (#[trigger] cells0[j]).slots.len() == 9);
        }
        if value == 0 {
            proof {
                assert(self@ =~= spec_set_value(old(self)@, 0));
                assert(forall|i: int| 0 <= i < 81 ==> cell_inv(#[trigger] self@.cells[i]));
            }
            return ;
        }
        let mut i: usize = 0;
        while i < 9
            invariant
                i <= 9,
                y < 9,
                x < 9,
                1 <= value <= 9,
                self.current_position == old(self).current_position,
                self.current_position.0 == y,
                self.current_position.1 == x,
                forall|j: int| 0 <= j < 81 ==> (#[trigger] cells0[j]).slots.len() == 9,
                forall|j: int|
                    0 <= j < 81 && rc_touched(j, y as int, x as int, i as int) ==> (
                    #[trigger] self.grid.cells[j])@ == cell_eliminate(cells0[j], value as int),
                forall|j: int|
                    0 <= j < 81 && !rc_touched(j, y as int, x as int, i as int) ==> (
                    #[trigger] self.grid.cells[j])@ == cells0[j],
            decreases 9 - i,
        {
            let kr = y * 9 + i;
            self.eliminate_candidate(kr, value);
            proof {
                assert(kr as int / 9 == y && kr as int % 9 == i);
                if rc_touched(kr as int, y as int, x as int, i as int) {
                    lemma_eliminate_idempotent(cells0[kr as int], value as int);
                }
            }
            let kc = i * 9 + x;
            self.eliminate_candidate(kc, value);
            proof {
                assert(kc as int / 9 == i && kc as int % 9 == x);
                if rc_touched(kc as int, y as int, x as int, i as int) || kc == kr {
                    lemma_eliminate_idempotent(cells0[kc as int], value as int);
                }
                assert(forall|j: int|
                    0 <= j < 81 && rc_touched(j, y as int, x as int, i + 1) ==> rc_touched(
                        j,
                        y as int,
                        x as int,
                        i as int,
                    ) || j == kr || j == kc);
            }
            i += 1;
        }
        let by = y - (y % 3);
        let bx = x - (x % 3);
        let mut t: usize = 0;
        while t < 9
            invariant
                t <= 9,
                y < 9,
                x < 9,
                1 <= value <= 9,
                by == box_origin(y as int),
                bx == box_origin(x as int),
                self.current_position == old(self).current_position,
                self.current_position.0 == y,
                self.current_position.1 == x,
                forall|j: int| 0 <= j < 81 ==> (#[trigger] cells0[j]).slots.len() == 9,
                forall|j: int|
                    0 <= j < 81 && (rc_touched(j, y as int, x as int, 9) || (in_box(
                        j,
                        y as int,
                        x as int,
                    ) && box_pos(j, by as int, bx as int) < t)) ==> (
                    #[trigger] self.grid.cells[j])@ == cell_eliminate(cells0[j], value as int),
                forall|j: int|
                    0 <= j < 81 && !(rc_touched(j, y as int, x as int, 9) || (in_box(
                        j,
                        y as int,
                        x as int,
                    ) && box_pos(j, by as int, bx as int) < t)) ==> (
                    #[trigger] self.grid.cells[j])@ == cells0[j],
            decreases 9 - t,
        {
            let kb = (by + t / 3) * 9 + (bx + t % 3);
            proof {
                assert(kb as int / 9 == by + t as int / 3 && kb as int % 9 == bx + t as int % 3);
                assert(box_pos(kb as int, by as int, bx as int) == t as int);
                assert(in_box(kb as int, y as int, x as int));
            }
            self.eliminate_candidate(kb, value);
            proof {
                if rc_touched(kb as int, y as int, x as int, 9) {
                    lemma_eliminate_idempotent(cells0[kb as int], value as int);
                }
            }
            t += 1;
        }
        proof {
            assert(forall|j: int|
                0 <= j < 81 ==> (in_peer_group(j, y as int, x as int) <==> (rc_touched(
                    j,
                    y as int,
                    x as int,
                    9,
                ) || (in_box(j, y as int, x as int) && box_pos(j, by as int, bx as int) < 9))));
            assert(self@.cells =~= spec_set_value(old(self)@, value as int).cells);
            assert(self@ =~= spec_set_value(old(self)@, value as int));
            assert(forall|i: int| 0 <= i < 81 ==> cell_inv(#[trigger] self@.cells[i]));
        }
    }

    /// Flip whether digit `value` is a live note on the cursor's cell.
    ///
    /// A given cell is left untouched. Otherwise the cell is vacated first
    /// (note mode always clears a committed digit), then the note flips:
    /// turned on, its slot takes the active-note colors; turned off, the
    /// slot's colors revert to their defaults.
    pub fn toggle_option(&mut self, value: usize)
        requires
            board_inv(old(self)@),
            1 <= value <= 9,
        ensures
            board_inv(final(self)@),
            final(self)@ == spec_toggle_option(old(self)@, value as int),
    {
        let y = self.current_position.0;
        let x = self.current_position.1;
        let k = y * 9 + x;
        if !self.grid.cells[k].initial {
            let mut cell = self.grid.cells[k];
            cell.value = 0;
            cell.toggle_option(value);
            let mut o = cell.options.values[value - 1];
            if o.valid {
                let th = Theme::default();
                o.bg = th.red;
                o.fg = th.white;
            } else {
                o.reset_colors();
            }
            cell.options.values[value - 1] = o;
            self.grid.cells[k] = cell;
            proof {
                let target = spec_toggle_option(old(self)@, value as int);
                assert(cell@.slots =~= target.cells[k as int].slots);
                assert(cell@ =~= target.cells[k as int]);
                assert(self@.cells =~= target.cells);
                assert(self@ =~= target);
                assert(forall|i: int| 0 <= i < 81 ==> cell_inv(#[trigger] self@.cells[i]));
            }
        }
    }

    /// Color every appearance of `value` on the grid: the cell of each
    /// committed `value`, and the note slot for `value` on each empty cell
    /// where it is live, take the highlight pair. A no-op for `value == 0`;
    /// colors accumulate across calls.
    pub fn highlight(&mut self, value: usize)
        requires
            board_inv(old(self)@),
            value <= 9,
        ensures
            board_inv(final(self)@),
            final(self)@ == spec_highlight(old(self)@, value as int),
    {
        if value == 0 {
            return ;
        }
        let th = Theme::default();
        let mut k: usize = 0;
        while k < 81
            invariant
                k <= 81,
                1 <= value <= 9,
                th == default_theme(),
                self.current_position == old(self).current_position,
                forall|j: int|
                    0 <= j < k ==> (#[trigger] self.grid.cells[j])@ == highlight_cell(
                        old(self).grid.cells[j]@,
                        value as int,
                    ),
                forall|j: int|
                    k <= j < 81 ==> (#[trigger] self.grid.cells[j]) == old(self).grid.cells[j],
            decreases 81 - k,
        {
            let mut cell = self.grid.cells[k];
            if cell.value == value {
                cell.bg = th.blue;
                cell.fg = th.black;
                self.grid.cells[k] = cell;
            } else if cell.options.values[value - 1].valid {
                let mut o = cell.options.values[value - 1];
                o.bg = th.blue;
                o.fg = th.black;
                cell.options.values[value - 1] = o;
                self.grid.cells[k] = cell;
            }
            k += 1;
        }
        proof {
            assert(self@.cells =~= spec_highlight(old(self)@, value as int).cells);
            assert(self@ =~= spec_highlight(old(self)@, value as int));
            assert(forall|i: int| 0 <= i < 81 ==> cell_inv(#[trigger] self@.cells[i]));
        }
    }

    /// Highlight `value` exclusively: revert every override color, then
    /// `highlight(value)`, so only the matches of `value` are colored.
    pub fn highlight_only(&mut self, value: usize)
        requires
            board_inv(old(self)@),
            value <= 9,
        ensures
            board_inv(final(self)@),
            final(self)@ == spec_highlight_only(old(self)@, value as int),
    {
        self.reset_colors();
        self.highlight(value);
    }

    /// Apply `color` at the cursor's cell: on an empty cell whose note for
    /// `value` is live, the slot takes `color` with the contrast
    /// foreground; on a committed cell the cell itself takes them; an empty
    /// cell without that note is left untouched.
    pub fn mark(&mut self, value: usize, color: Color)
        requires
            board_inv(old(self)@),
            1 <= value <= 9,
        ensures
            board_inv(final(self)@),
            final(self)@ == spec_mark(old(self)@, value as int, color),
    {
        let th = Theme::default();
        let y = self.current_position.0;
        let x = self.current_position.1;
        let k = y * 9 + x;
        let mut cell = self.grid.cells[k];
        if cell.value == 0 && cell.options.values[value - 1].valid {
            let mut o = cell.options.values[value - 1];
            o.bg = color;
            o.fg = th.black;
            cell.options.values[value - 1] = o;
            self.grid.cells[k] = cell;
        } else if cell.value != 0 {
            cell.bg = color;
            cell.fg = th.black;
            self.grid.cells[k] = cell;
        }
        proof {
            assert(self@.cells =~= spec_mark(old(self)@, value as int, color).cells);
            assert(self@ =~= spec_mark(old(self)@, value as int, color));
            assert(forall|i: int| 0 <= i < 81 ==> cell_inv(#[trigger] self@.cells[i]));
        }
    }

    /// Fill in notes: for every empty cell, every digit not already
    /// committed in that cell's row, column or box becomes a live note.
    ///
    /// A single pass judged against the committed values as they stood at
    /// the start; it never removes a note and never touches colors,
    /// committed cells, or the cursor.
    pub fn autofill(&mut self)
        requires
            board_inv(old(self)@),
        ensures
            board_inv(final(self)@),
            final(self)@ == spec_autofill(old(self)@),
    {
        let ghost cells0 = self@.cells;
        let mut k: usize = 0;
        while k < 81
            invariant
                k <= 81,
                cells0 == old(self)@.cells,
                board_inv(old(self)@),
                self.current_position == old(self).current_position,
                forall|j: int|
                    0 <= j < k ==> (#[trigger] self.grid.cells[j])@ == autofill_cell(cells0, j),
                forall|j: int| k <= j < 81 ==> (#[trigger] self.grid.cells[j])@ == cells0[j],
                forall|j: int|
                    0 <= j < 81 ==> (#[trigger] self.grid.cells[j])@.value == cells0[j].value,
            decreases 81 - k,
        {
            let y = k / 9;
            let x = k % 9;
            if self.grid.cells[k].value == 0 {
                let mut v: usize = 1;
                while v <= 9
                    invariant
                        1 <= v <= 10,
                        k < 81,
                        y == k / 9,
                        x == k % 9,
                        cells0 == old(self)@.cells,
                        board_inv(old(self)@),
                        self.current_position == old(self).current_position,
                        forall|j: int|
                            0 <= j < k ==> (#[trigger] self.grid.cells[j])@ == autofill_cell(
                                cells0,
                                j,
                            ),
                        forall|j: int|
                            k < j < 81 ==> (#[trigger] self.grid.cells[j])@ == cells0[j],
                        forall|j: int|
                            0 <= j < 81 ==> (#[trigger] self.grid.cells[j])@.value
                                == cells0[j].value,
                        cells0[k as int].value == 0,
                        self.grid.cells[k as int]@.initial == cells0[k as int].initial,
                        self.grid.cells[k as int]@.bg == cells0[k as int].bg,
                        self.grid.cells[k as int]@.fg == cells0[k as int].fg,
                        self.grid.cells[k as int]@.default_bg == cells0[k as int].default_bg,
                        self.grid.cells[k as int]@.default_fg == cells0[k as int].default_fg,
                        forall|j: int|
                            0 <= j < v - 1 ==> self.grid.cells[k as int]@.slots[j] == (
                            if candidate_possible(cells0, k as int / 9, k as int % 9, j + 1) {
                                (CellOption { valid: true, ..cells0[k as int].slots[j] })
                            } else {
                                cells0[k as int].slots[j]
                            }),
                        forall|j: int|
                            v - 1 <= j < 9 ==> self.grid.cells[k as int]@.slots[j]
                                == cells0[k as int].slots[j],
                    decreases 10 - v,
                {
                    let ok = no_conflict(&self.grid, y, x, v);
                    proof {
                        assert(forall|j: int|
                            0 <= j < 81 ==> self.grid@[j] == (#[trigger] self.grid.cells[j])@);
                        lemma_possible_values_only(
                            self.grid@,
                            cells0,
                            y as int,
                            x as int,
                            v as int,
                        );
                    }
                    if ok {
                        let mut cell = self.grid.cells[k];
                        cell.add_option(v);
                        self.grid.cells[k] = cell;
                        proof {
                            assert(candidate_possible(
                                cells0,
                                k as int / 9,
                                k as int % 9,
                                v as int,
                            ));
                            assert(self.grid.cells[k as int]@.slots[v as int - 1] == (CellOption {
                                valid: true,
                                ..cells0[k as int].slots[v as int - 1]
                            }));
                        }
                    } else {
                        proof {
                            assert(!candidate_possible(
                                cells0,
                                k as int / 9,
                                k as int % 9,
                                v as int,
                            ));
                            assert(self.grid.cells[k as int]@.slots[v as int - 1]
                                == cells0[k as int].slots[v as int - 1]);
                        }
                    }
                    v += 1;
                }
                proof {
                    assert(self.grid.cells[k as int]@.slots =~= autofill_cell(
                        cells0,
                        k as int,
                    ).slots);
                    assert(self.grid.cells[k as int]@ =~= autofill_cell(cells0, k as int));
                }
            }
            k += 1;
        }
        proof {
            assert(self@.cells =~= spec_autofill(old(self)@).cells);
            assert(self@ =~= spec_autofill(old(self)@));
            assert(forall|i: int| 0 <= i < 81 ==> cell_inv(#[trigger] self@.cells[i]));
        }
    }
}

} // verus!
