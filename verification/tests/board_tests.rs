//! Tests of the board engine: navigation, committing, note toggling,
//! highlighting, marking and autofill.

use sudoku_board::board::Board;
use sudoku_board::cell::Cell;
use sudoku_board::color::Theme;
use sudoku_board::grid::Grid;

fn empty_puzzle() -> String {
    "0".repeat(81)
}

fn cell(board: &Board, row: usize, col: usize) -> &Cell {
    board.grid.cell_at(row, col)
}

#[test]
fn cursor_starts_at_origin() {
    let board = Board::from(Grid::from(empty_puzzle()));
    assert_eq!(board.current_position, (0, 0));
}

#[test]
fn moves_wrap_at_edges() {
    let mut board = Board::default();
    board.move_up();
    assert_eq!(board.current_position, (8, 0));
    board.move_down();
    assert_eq!(board.current_position, (0, 0));
    board.move_left();
    assert_eq!(board.current_position, (0, 8));
    board.move_right();
    assert_eq!(board.current_position, (0, 0));
}

#[test]
fn each_move_undone_by_its_inverse() {
    let mut board = Board::default();
    for _ in 0..3 {
        board.move_down();
        board.move_right();
    }
    let start = board.current_position;
    board.move_up();
    board.move_down();
    assert_eq!(board.current_position, start);
    board.move_left();
    board.move_right();
    assert_eq!(board.current_position, start);
    board.move_down();
    board.move_up();
    assert_eq!(board.current_position, start);
    board.move_right();
    board.move_left();
    assert_eq!(board.current_position, start);
}

#[test]
fn moves_do_not_touch_the_grid() {
    let mut puzzle = empty_puzzle();
    puzzle.replace_range(0..1, "7");
    let mut board = Board::from(Grid::from(puzzle));
    board.move_down();
    board.move_right();
    assert_eq!(cell(&board, 0, 0).value, 7);
    assert!(cell(&board, 0, 0).initial);
}

#[test]
fn set_value_commits_digit() {
    let mut board = Board::default();
    board.move_down();
    board.set_value(4);
    assert_eq!(cell(&board, 1, 0).value, 4);
    assert!(!cell(&board, 1, 0).initial);
}

#[test]
fn set_value_zero_clears_cell() {
    let mut board = Board::default();
    board.set_value(6);
    assert_eq!(cell(&board, 0, 0).value, 6);
    board.set_value(0);
    assert_eq!(cell(&board, 0, 0).value, 0);
}

#[test]
fn given_cell_ignores_edits() {
    let mut puzzle = empty_puzzle();
    puzzle.replace_range(0..1, "5");
    let mut board = Board::from(Grid::from(puzzle));
    board.set_value(3);
    assert_eq!(cell(&board, 0, 0).value, 5);
    board.set_value(0);
    assert_eq!(cell(&board, 0, 0).value, 5);
    board.toggle_option(2);
    assert_eq!(cell(&board, 0, 0).value, 5);
    assert!(!cell(&board, 0, 0).options.values[1].valid);
    let purple = Theme::default().purple;
    board.mark(5, purple);
    assert_eq!(cell(&board, 0, 0).value, 5);
    assert!(cell(&board, 0, 0).initial);
}

#[test]
fn set_value_eliminates_candidate_in_row_column_and_box() {
    let mut board = Board::from(Grid::from(empty_puzzle()));
    board.autofill();
    board.set_value(5);
    for c in 1..9 {
        assert!(!cell(&board, 0, c).options.values[4].valid, "row peer (0,{})", c);
    }
    for r in 1..9 {
        assert!(!cell(&board, r, 0).options.values[4].valid, "column peer ({},0)", r);
    }
    for &(r, c) in &[(1, 1), (1, 2), (2, 1), (2, 2)] {
        assert!(!cell(&board, r, c).options.values[4].valid, "box peer ({},{})", r, c);
    }
    assert!(cell(&board, 3, 3).options.values[4].valid);
    assert!(cell(&board, 0, 1).options.values[3].valid);
}

#[test]
fn set_value_zero_skips_elimination() {
    let mut board = Board::from(Grid::from(empty_puzzle()));
    board.autofill();
    board.set_value(0);
    for c in 0..9 {
        for d in 0..9 {
            assert!(cell(&board, 0, c).options.values[d].valid);
        }
    }
}

#[test]
fn toggle_option_vacates_and_flips() {
    let mut board = Board::default();
    board.set_value(8);
    board.toggle_option(3);
    assert_eq!(cell(&board, 0, 0).value, 0);
    assert!(cell(&board, 0, 0).options.values[2].valid);
    let th = Theme::default();
    assert_eq!(cell(&board, 0, 0).options.values[2].bg, th.red);
    assert_eq!(cell(&board, 0, 0).options.values[2].fg, th.white);
    board.toggle_option(3);
    assert!(!cell(&board, 0, 0).options.values[2].valid);
    assert_eq!(cell(&board, 0, 0).options.values[2].bg, th.dark_grey);
    assert_eq!(cell(&board, 0, 0).options.values[2].fg, th.white);
}

#[test]
fn autofill_on_empty_grid_gives_all_nine_candidates() {
    let mut board = Board::from(Grid::from(empty_puzzle()));
    board.autofill();
    for r in 0..9 {
        for c in 0..9 {
            for d in 0..9 {
                assert!(cell(&board, r, c).options.values[d].valid, "({},{}) digit {}", r, c, d + 1);
            }
        }
    }
}

#[test]
fn autofill_row_of_eight_leaves_only_the_ninth() {
    let mut puzzle = empty_puzzle();
    puzzle.replace_range(0..8, "12345678");
    let mut board = Board::from(Grid::from(puzzle));
    board.autofill();
    let last = cell(&board, 0, 8);
    for d in 0..8 {
        assert!(!last.options.values[d].valid, "digit {}", d + 1);
    }
    assert!(last.options.values[8].valid);
}

#[test]
fn autofill_adds_no_conflicting_candidate() {
    let mut puzzle = empty_puzzle();
    puzzle.replace_range(0..3, "127");
    puzzle.replace_range(30..31, "4");
    let mut board = Board::from(Grid::from(puzzle));
    board.autofill();
    for r in 0..9 {
        for c in 0..9 {
            if board.grid.cell_at(r, c).value != 0 {
                continue;
            }
            for d in 0..9 {
                if !board.grid.cell_at(r, c).options.values[d].valid {
                    continue;
                }
                let digit = d + 1;
                for i in 0..9 {
                    assert_ne!(board.grid.cell_at(r, i).value, digit, "row conflict");
                    assert_ne!(board.grid.cell_at(i, c).value, digit, "column conflict");
                }
                let (br, bc) = (r - r % 3, c - c % 3);
                for dr in 0..3 {
                    for dc in 0..3 {
                        assert_ne!(board.grid.cell_at(br + dr, bc + dc).value, digit, "box conflict");
                    }
                }
            }
        }
    }
}

#[test]
fn autofill_does_not_remove_existing_notes() {
    let mut puzzle = empty_puzzle();
    puzzle.replace_range(1..2, "5");
    let mut board = Board::from(Grid::from(puzzle));
    board.toggle_option(5);
    assert!(cell(&board, 0, 0).options.values[4].valid);
    board.autofill();
    assert!(cell(&board, 0, 0).options.values[4].valid);
}

#[test]
fn highlight_colors_committed_match_and_live_notes() {
    let mut board = Board::from(Grid::from(empty_puzzle()));
    board.set_value(5);
    board.move_right();
    board.toggle_option(5);
    board.move_right();
    board.toggle_option(4);
    board.highlight(5);
    let th = Theme::default();
    assert_eq!(cell(&board, 0, 0).bg, th.blue);
    assert_eq!(cell(&board, 0, 0).fg, th.black);
    assert_eq!(cell(&board, 0, 1).options.values[4].bg, th.blue);
    assert_eq!(cell(&board, 0, 1).options.values[4].fg, th.black);
    assert_eq!(cell(&board, 0, 2).options.values[3].bg, th.red);
    assert_eq!(cell(&board, 0, 2).bg, th.black);
}

#[test]
fn highlight_zero_changes_nothing() {
    let mut board = Board::from(Grid::from(empty_puzzle()));
    board.set_value(5);
    board.highlight(5);
    let before = cell(&board, 0, 0).bg;
    board.highlight(0);
    assert_eq!(cell(&board, 0, 0).bg, before);
}

#[test]
fn highlight_only_is_exclusive() {
    let mut board = Board::from(Grid::from(empty_puzzle()));
    board.set_value(5);
    board.move_right();
    board.set_value(6);
    board.highlight(5);
    board.highlight_only(6);
    let th = Theme::default();
    assert_eq!(cell(&board, 0, 0).bg, th.black, "earlier highlight reverted");
    assert_eq!(cell(&board, 0, 1).bg, th.blue);
}

#[test]
fn highlight_only_zero_reverts_every_color() {
    let mut board = Board::from(Grid::from(empty_puzzle()));
    board.set_value(5);
    board.move_right();
    board.toggle_option(5);
    board.highlight_only(5);
    board.highlight_only(0);
    for r in 0..9 {
        for c in 0..9 {
            let cl = board.grid.cell_at(r, c);
            assert_eq!(cl.bg, cl.default_bg);
            assert_eq!(cl.fg, cl.default_fg);
            for d in 0..9 {
                let o = &cl.options.values[d];
                assert_eq!(o.bg, o.default_bg);
                assert_eq!(o.fg, o.default_fg);
            }
        }
    }
}

#[test]
fn reset_colors_reverts_overrides_and_keeps_state() {
    let mut board = Board::from(Grid::from(empty_puzzle()));
    board.set_value(5);
    board.move_right();
    board.toggle_option(7);
    board.highlight(5);
    board.reset_colors();
    let th = Theme::default();
    assert_eq!(cell(&board, 0, 0).bg, th.black);
    assert_eq!(cell(&board, 0, 0).value, 5);
    assert!(cell(&board, 0, 1).options.values[6].valid);
    assert_eq!(cell(&board, 0, 1).options.values[6].bg, th.dark_grey);
}

#[test]
fn mark_colors_a_live_note_slot() {
    let mut board = Board::from(Grid::from(empty_puzzle()));
    board.toggle_option(4);
    let th = Theme::default();
    board.mark(4, th.green);
    assert_eq!(cell(&board, 0, 0).options.values[3].bg, th.green);
    assert_eq!(cell(&board, 0, 0).options.values[3].fg, th.black);
}

#[test]
fn mark_colors_a_committed_cell() {
    let mut board = Board::from(Grid::from(empty_puzzle()));
    board.set_value(9);
    let th = Theme::default();
    board.mark(2, th.yellow);
    assert_eq!(cell(&board, 0, 0).bg, th.yellow);
    assert_eq!(cell(&board, 0, 0).fg, th.black);
    assert_eq!(cell(&board, 0, 0).value, 9);
}

#[test]
fn mark_without_matching_note_is_inert() {
    let mut board = Board::from(Grid::from(empty_puzzle()));
    let th = Theme::default();
    board.mark(4, th.green);
    let cl = cell(&board, 0, 0);
    assert_eq!(cl.bg, cl.default_bg);
    assert_eq!(cl.options.values[3].bg, cl.options.values[3].default_bg);
}

#[test]
fn grid_from_puzzle_string_sets_givens_only() {
    let mut puzzle = empty_puzzle();
    puzzle.replace_range(0..2, "90");
    puzzle.replace_range(40..41, "1");
    let grid = Grid::from(puzzle);
    assert_eq!(grid.cell_at(0, 0).value, 9);
    assert!(grid.cell_at(0, 0).initial);
    assert_eq!(grid.cell_at(0, 1).value, 0);
    assert!(!grid.cell_at(0, 1).initial);
    assert_eq!(grid.cell_at(4, 4).value, 1);
    assert!(grid.cell_at(4, 4).initial);
    for d in 0..9 {
        assert!(!grid.cell_at(0, 1).options.values[d].valid);
    }
}
