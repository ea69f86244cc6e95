//! The engine's laws: what holds of every board, every command sequence
//! and every saved grid, stated over the spec-level transforms of
//! [`crate::board`] and [`crate::codec`] and proved once and for all.

use vstd::prelude::*;

use crate::board::board_inv;
use crate::board::candidate_possible;
use crate::board::in_peer_group;
use crate::board::lemma_possible_values_only;
use crate::board::spec_autofill;
use crate::board::spec_highlight;
use crate::board::spec_highlight_only;
use crate::board::spec_mark;
use crate::board::spec_move_down;
use crate::board::spec_move_left;
use crate::board::spec_move_right;
use crate::board::spec_move_up;
use crate::board::spec_reset_colors;
use crate::board::spec_set_value;
use crate::board::spec_toggle_option;
use crate::board::BoardModel;
use crate::cell::cell_inv;
use crate::cell::CellModel;
use crate::codec::cell_record;
use crate::codec::digit_byte;
use crate::codec::note_digits;
use crate::codec::note_digits_upto;
use crate::codec::parse_record;
use crate::codec::GIVEN_BYTE;
use crate::codec::SEP_BYTE;
use crate::codec::ZERO_BYTE;
use crate::color::Color;
use crate::grid::cell_index;
use crate::grid::grid_inv;

verus! {

/// One discrete user intent, as the input layer hands it to the board.
pub ghost enum Command {
    MoveUp,
    MoveDown,
    MoveLeft,
    MoveRight,
    SetValue(int),
    ToggleOption(int),
    Highlight(int),
    HighlightOnly(int),
    Mark(int, Color),
    ResetColors,
    Autofill,
}

/// The argument ranges a command may legally carry.
pub open spec fn command_wf(cmd: Command) -> bool {
    match cmd {
        Command::SetValue(d) => 0 <= d <= 9,
        Command::ToggleOption(d) => 1 <= d <= 9,
        Command::Highlight(d) => 0 <= d <= 9,
        Command::HighlightOnly(d) => 0 <= d <= 9,
        Command::Mark(d, _) => 1 <= d <= 9,
        _ => true,
    }
}

/// The board after one command.
pub open spec fn step(m: BoardModel, cmd: Command) -> BoardModel {
    match cmd {
        Command::MoveUp => spec_move_up(m),
        Command::MoveDown => spec_move_down(m),
        Command::MoveLeft => spec_move_left(m),
        Command::MoveRight => spec_move_right(m),
        Command::SetValue(d) => spec_set_value(m, d),
        Command::ToggleOption(d) => spec_toggle_option(m, d),
        Command::Highlight(d) => spec_highlight(m, d),
        Command::HighlightOnly(d) => spec_highlight_only(m, d),
        Command::Mark(d, color) => spec_mark(m, d, color),
        Command::ResetColors => spec_reset_colors(m),
        Command::Autofill => spec_autofill(m),
    }
}

/// The board after a whole sequence of commands, first one first.
pub open spec fn run(m: BoardModel, cmds: Seq<Command>) -> BoardModel
    decreases cmds.len(),
{
    if cmds.len() == 0 {
        m
    } else {
        run(step(m, cmds[0]), cmds.subrange(1, cmds.len() as int))
    }
}

/// Every command keeps the board well formed.
pub proof fn lemma_step_preserves_inv(m: BoardModel, cmd: Command)
    requires
        board_inv(m),
        command_wf(cmd),
    ensures
        board_inv(step(m, cmd)),
{
    let s = step(m, cmd);
    assert(forall|i: int| 0 <= i < 81 ==> cell_inv(#[trigger] s.cells[i]));
}

/// A well-formed board stays well formed under any legal command sequence.
pub proof fn lemma_run_preserves_inv(m: BoardModel, cmds: Seq<Command>)
    requires
        board_inv(m),
        forall|k: int| 0 <= k < cmds.len() ==> command_wf(#[trigger] cmds[k]),
    ensures
        board_inv(run(m, cmds)),
    decreases cmds.len(),
{
    if cmds.len() > 0 {
        lemma_step_preserves_inv(m, cmds[0]);
        lemma_run_preserves_inv(step(m, cmds[0]), cmds.subrange(1, cmds.len() as int));
    }
}

/// Each directional move followed by its inverse returns the cursor to
/// where it was, the grid untouched throughout; and the moves wrap: up
/// from row 0 lands on row 8, right from column 8 lands on column 0.
pub proof fn lemma_move_round_trip(m: BoardModel)
    requires
        board_inv(m),
    ensures
        spec_move_down(spec_move_up(m)) == m,
        spec_move_up(spec_move_down(m)) == m,
        spec_move_right(spec_move_left(m)) == m,
        spec_move_left(spec_move_right(m)) == m,
        spec_move_up(m).cells == m.cells,
        spec_move_down(m).cells == m.cells,
        spec_move_left(m).cells == m.cells,
        spec_move_right(m).cells == m.cells,
        m.row == 0 ==> spec_move_up(m).row == 8,
        m.col == 8 ==> spec_move_right(m).col == 0,
{
    assert(spec_move_down(spec_move_up(m)) =~= m);
    assert(spec_move_up(spec_move_down(m)) =~= m);
    assert(spec_move_right(spec_move_left(m)) =~= m);
    assert(spec_move_left(spec_move_right(m)) =~= m);
}

/// One command never changes the value (or the given flag) of a given
/// cell.
pub proof fn lemma_step_keeps_given(m: BoardModel, cmd: Command, i: int)
    requires
        board_inv(m),
        command_wf(cmd),
        0 <= i < 81,
        m.cells[i].initial,
    ensures
        step(m, cmd).cells[i].initial == m.cells[i].initial,
        step(m, cmd).cells[i].value == m.cells[i].value,
{
}

/// Given-cell immutability: no sequence of legal commands changes the
/// value of a cell that was given in the initial puzzle.
pub proof fn lemma_given_cell_immutable(m: BoardModel, cmds: Seq<Command>, i: int)
    requires
        board_inv(m),
        forall|k: int| 0 <= k < cmds.len() ==> command_wf(#[trigger] cmds[k]),
        0 <= i < 81,
        m.cells[i].initial,
    ensures
        run(m, cmds).cells[i].initial,
        run(m, cmds).cells[i].value == m.cells[i].value,
    decreases cmds.len(),
{
    if cmds.len() > 0 {
        lemma_step_keeps_given(m, cmds[0], i);
        lemma_step_preserves_inv(m, cmds[0]);
        lemma_given_cell_immutable(step(m, cmds[0]), cmds.subrange(1, cmds.len() as int), i);
    }
}

/// Elimination correctness: after committing digit `d` on a non-given
/// cell, no cell of the cursor's row, column or box still has `d` as a
/// live note.
pub proof fn lemma_elimination(m: BoardModel, d: int, i: int)
    requires
        board_inv(m),
        1 <= d <= 9,
        !m.cells[cell_index(m.row, m.col)].initial,
        0 <= i < 81,
        in_peer_group(i, m.row, m.col),
    ensures
        !spec_set_value(m, d).cells[i].slots[d - 1].valid,
{
}

/// What soundness of the note state means: every live note on an empty
/// cell names a digit that no committed cell of its row, column or box
/// holds.
pub open spec fn notes_sound(cells: Seq<CellModel>) -> bool {
    forall|i: int, d: int|
        0 <= i < 81 && 1 <= d <= 9 && cells[i].value == 0 && (#[trigger] cells[i].slots[d
            - 1]).valid ==> candidate_possible(cells, i / 9, i % 9, d)
}

/// Autofill soundness: starting from a sound note state, the pass only
/// adds notes for digits that no committed cell of the row, column or box
/// holds, so the note state stays sound.
pub proof fn lemma_autofill_sound(m: BoardModel)
    requires
        board_inv(m),
        notes_sound(m.cells),
    ensures
        notes_sound(spec_autofill(m).cells),
{
    let new_cells = spec_autofill(m).cells;
    assert forall|i: int, d: int|
        0 <= i < 81 && 1 <= d <= 9 && new_cells[i].value == 0 && (#[trigger] new_cells[i].slots[d
            - 1]).valid implies candidate_possible(new_cells, i / 9, i % 9, d) by {
        assert(forall|j: int| 0 <= j < 81 ==> (#[trigger] new_cells[j]).value == m.cells[j].value);
        lemma_possible_values_only(m.cells, new_cells, i / 9, i % 9, d);
        if m.cells[i].slots[d - 1].valid {
            assert(candidate_possible(m.cells, i / 9, i % 9, d));
        } else {
            assert(candidate_possible(m.cells, i / 9, i % 9, d));
        }
    }
}

/// A note that `autofill` itself turned on is always sound: the pass adds
/// a digit on an empty cell only when no committed cell of that cell's
/// row, column or box holds it. (A note that was already live before the
/// pass is kept as it was, sound or not.)
pub proof fn lemma_autofill_adds_only_sound_notes(m: BoardModel, i: int, d: int)
    requires
        board_inv(m),
        0 <= i < 81,
        1 <= d <= 9,
        m.cells[i].value == 0,
        !m.cells[i].slots[d - 1].valid,
        spec_autofill(m).cells[i].slots[d - 1].valid,
    ensures
        candidate_possible(spec_autofill(m).cells, i / 9, i % 9, d),
{
    let new_cells = spec_autofill(m).cells;
    assert(forall|j: int| 0 <= j < 81 ==> (#[trigger] new_cells[j]).value == m.cells[j].value);
    lemma_possible_values_only(m.cells, new_cells, i / 9, i % 9, d);
}

/// Highlight exclusivity at the level of one cell: every override color
/// equals its stored default.
pub open spec fn colors_at_default(c: CellModel) -> bool {
    &&& c.bg == c.default_bg
    &&& c.fg == c.default_fg
    &&& forall|j: int|
        0 <= j < c.slots.len() ==> (#[trigger] c.slots[j]).bg == c.slots[j].default_bg
            && c.slots[j].fg == c.slots[j].default_fg
}

/// Highlight exclusivity: `highlight_only(d)` followed by
/// `highlight_only(0)` leaves every override color on the grid at its
/// stored default.
pub proof fn lemma_highlight_exclusive(m: BoardModel, d: int)
    requires
        board_inv(m),
        0 <= d <= 9,
    ensures
        forall|i: int|
            0 <= i < 81 ==> colors_at_default(
                #[trigger] spec_highlight_only(spec_highlight_only(m, d), 0).cells[i],
            ),
{
}

/// No committed cell still carries a live note (notes of committed cells
/// are not persisted, so this is what the round trip asks of a grid).
pub open spec fn committed_notes_clear(cells: Seq<CellModel>) -> bool {
    forall|i: int, j: int|
        0 <= i < 81 && 0 <= j < 9 && cells[i].value != 0 ==> !(#[trigger] cells[i].slots[j]).valid
}

/// Every byte of the note-digit suffix is an ASCII digit `1..=9`.
proof fn lemma_note_digits_bytes(c: CellModel, hi: int)
    requires
        0 <= hi <= 9,
    ensures
        forall|i: int|
            0 <= i < note_digits_upto(c, hi).len() ==> 49 <= #[trigger] note_digits_upto(c, hi)[i]
                <= 57,
    decreases hi,
{
    if hi > 0 {
        lemma_note_digits_bytes(c, hi - 1);
        let prev = note_digits_upto(c, hi - 1);
        let cur = note_digits_upto(c, hi);
        assert forall|i: int| 0 <= i < cur.len() implies 49 <= #[trigger] cur[i] <= 57 by {
            if i < prev.len() {
                assert(cur[i] == prev[i]);
            } else {
                assert(cur[i] == digit_byte(hi));
            }
        }
    }
}

/// The note-digit suffix holds the byte of digit `d` exactly when the
/// cell's note for `d` (among `1..=hi`) is live.
proof fn lemma_note_digits_contains(c: CellModel, hi: int, d: int)
    requires
        1 <= d <= 9,
        0 <= hi <= 9,
    ensures
        note_digits_upto(c, hi).contains(digit_byte(d)) == (d <= hi && c.slots[d - 1].valid),
    decreases hi,
{
    if hi > 0 {
        lemma_note_digits_contains(c, hi - 1, d);
        let prev = note_digits_upto(c, hi - 1);
        let cur = note_digits_upto(c, hi);
        if c.slots[hi - 1].valid {
            assert(cur =~= prev.push(digit_byte(hi)));
            if prev.contains(digit_byte(d)) {
                let w = choose|w: int| 0 <= w < prev.len() && prev[w] == digit_byte(d);
                assert(cur[w] == digit_byte(d));
            }
            if d == hi {
                assert(cur[cur.len() - 1] == digit_byte(d));
            }
            if cur.contains(digit_byte(d)) {
                let w = choose|w: int| 0 <= w < cur.len() && cur[w] == digit_byte(d);
                if w < cur.len() - 1 {
                    assert(prev[w] == digit_byte(d));
                } else {
                    assert(digit_byte(d) == digit_byte(hi));
                    assert(d == hi);
                }
            }
        } else {
            assert(cur =~= prev);
        }
    }
}

/// Round-trip persistence for one cell: parsing the record a cell saves
/// to yields the same value, the same given flag and the same note flags
/// (colors are not persisted). A committed cell must carry no live notes:
/// its record has no room for them.
pub proof fn lemma_record_round_trip(c: CellModel)
    requires
        cell_inv(c),
        c.value != 0 ==> forall|j: int| 0 <= j < 9 ==> !(#[trigger] c.slots[j]).valid,
    ensures
        parse_record(cell_record(c)) is Some,
        parse_record(cell_record(c)).unwrap().value == c.value,
        parse_record(cell_record(c)).unwrap().initial == c.initial,
        forall|j: int|
            0 <= j < 9 ==> parse_record(cell_record(c)).unwrap().slots[j].valid == c.slots[j].valid,
{
    let l = cell_record(c);
    if c.value != 0 {
        if c.initial {
            assert(l =~= seq![digit_byte(c.value), SEP_BYTE, GIVEN_BYTE]);
        } else {
            assert(l =~= seq![digit_byte(c.value), SEP_BYTE]);
        }
        assert(l[0] == digit_byte(c.value));
        assert(49 <= l[0] <= 57);
    } else {
        assert(l =~= seq![ZERO_BYTE, SEP_BYTE] + note_digits(c));
        lemma_note_digits_bytes(c, 9);
        assert(forall|i: int| 2 <= i < l.len() ==> 49 <= #[trigger] l[i] <= 57);
        assert(l.subrange(2, l.len() as int) =~= note_digits(c));
        assert forall|j: int| 0 <= j < 9 implies parse_record(l).unwrap().slots[j].valid
            == c.slots[j].valid by {
            lemma_note_digits_contains(c, 9, j + 1);
        }
    }
}

/// Round-trip persistence for a whole grid: the 81 record lines a grid
/// saves to parse back to cells with the same values, given flags and
/// note flags, cell by cell.
pub proof fn lemma_grid_round_trip(cells: Seq<CellModel>)
    requires
        grid_inv(cells),
        committed_notes_clear(cells),
    ensures
        forall|i: int| 0 <= i < 81 ==> parse_record(cell_record(#[trigger] cells[i])) is Some,
        forall|i: int|
            0 <= i < 81 ==> parse_record(cell_record(#[trigger] cells[i])).unwrap().value
                == cells[i].value,
        forall|i: int|
            0 <= i < 81 ==> parse_record(cell_record(#[trigger] cells[i])).unwrap().initial
                == cells[i].initial,
        forall|i: int, j: int|
            0 <= i < 81 && 0 <= j < 9 ==> #[trigger] parse_record(
                cell_record(cells[i]),
            ).unwrap().slots[j].valid == cells[i].slots[j].valid,
{
    assert forall|i: int| 0 <= i < 81 implies parse_record(cell_record(#[trigger] cells[i]))
        is Some && parse_record(cell_record(cells[i])).unwrap().value == cells[i].value
        && parse_record(cell_record(cells[i])).unwrap().initial == cells[i].initial && (forall|
        j: int,
    |
        0 <= j < 9 ==> parse_record(cell_record(cells[i])).unwrap().slots[j].valid
            == cells[i].slots[j].valid) by {
        lemma_record_round_trip(cells[i]);
    }
}

} // verus!
