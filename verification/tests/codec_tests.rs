//! Tests of the persistence codec: record lines written by `save`, grids
//! read back by `load`, and the round trip between the two.

use sudoku_board::board::Board;
use sudoku_board::codec::load;
use sudoku_board::codec::save;
use sudoku_board::grid::Grid;

fn empty_puzzle() -> String {
    "0".repeat(81)
}

#[test]
fn save_writes_one_record_per_cell() {
    let grid = Grid::from(empty_puzzle());
    let lines = save(&grid);
    assert_eq!(lines.len(), 81);
    for line in &lines {
        assert_eq!(line.as_slice(), &b"0-"[..]);
    }
}

#[test]
fn save_formats_given_and_user_cells() {
    let mut puzzle = empty_puzzle();
    puzzle.replace_range(0..1, "5");
    let mut board = Board::from(Grid::from(puzzle));
    board.move_right();
    board.set_value(7);
    let lines = save(&board.grid);
    assert_eq!(lines[0].as_slice(), &b"5-i"[..]);
    assert_eq!(lines[1].as_slice(), &b"7-"[..]);
}

#[test]
fn save_lists_notes_ascending() {
    let mut board = Board::from(Grid::from(empty_puzzle()));
    board.toggle_option(9);
    board.toggle_option(1);
    board.toggle_option(5);
    let lines = save(&board.grid);
    assert_eq!(lines[0].as_slice(), &b"0-159"[..]);
}

#[test]
fn load_reads_values_givens_and_notes() {
    let mut lines: Vec<Vec<u8>> = vec![b"0-".to_vec(); 81];
    lines[0] = b"5-i".to_vec();
    lines[1] = b"7-".to_vec();
    lines[2] = b"0-159".to_vec();
    let grid = load(&lines).unwrap();
    assert_eq!(grid.cell_at(0, 0).value, 5);
    assert!(grid.cell_at(0, 0).initial);
    assert_eq!(grid.cell_at(0, 1).value, 7);
    assert!(!grid.cell_at(0, 1).initial);
    assert_eq!(grid.cell_at(0, 2).value, 0);
    assert!(grid.cell_at(0, 2).options.values[0].valid);
    assert!(grid.cell_at(0, 2).options.values[4].valid);
    assert!(grid.cell_at(0, 2).options.values[8].valid);
    assert!(!grid.cell_at(0, 2).options.values[1].valid);
}

#[test]
fn round_trip_keeps_values_givens_and_notes() {
    let mut puzzle = empty_puzzle();
    puzzle.replace_range(0..4, "1234");
    puzzle.replace_range(50..51, "9");
    let mut board = Board::from(Grid::from(puzzle));
    board.move_down();
    board.set_value(6);
    board.move_right();
    board.toggle_option(2);
    board.toggle_option(8);
    board.autofill();
    let saved = save(&board.grid);
    let loaded = load(&saved).unwrap();
    for r in 0..9 {
        for c in 0..9 {
            let before = board.grid.cell_at(r, c);
            let after = loaded.cell_at(r, c);
            assert_eq!(after.value, before.value, "value at ({},{})", r, c);
            assert_eq!(after.initial, before.initial, "given flag at ({},{})", r, c);
            for d in 0..9 {
                assert_eq!(
                    after.options.values[d].valid,
                    before.options.values[d].valid,
                    "note {} at ({},{})",
                    d + 1,
                    r,
                    c
                );
            }
        }
    }
}

#[test]
fn load_does_not_restore_colors() {
    let mut board = Board::from(Grid::from(empty_puzzle()));
    board.set_value(5);
    board.highlight(5);
    let loaded = load(&save(&board.grid)).unwrap();
    let cell = loaded.cell_at(0, 0);
    assert_eq!(cell.bg, cell.default_bg);
    assert_eq!(cell.fg, cell.default_fg);
}

#[test]
fn load_ignores_lines_beyond_81() {
    let mut lines: Vec<Vec<u8>> = vec![b"0-".to_vec(); 81];
    lines.push(b"not a record at all".to_vec());
    let grid = load(&lines).unwrap();
    assert_eq!(grid.cell_at(8, 8).value, 0);
}

#[test]
fn load_with_fewer_lines_leaves_rest_empty() {
    let lines: Vec<Vec<u8>> = vec![b"4-i".to_vec()];
    let grid = load(&lines).unwrap();
    assert_eq!(grid.cell_at(0, 0).value, 4);
    assert!(grid.cell_at(0, 0).initial);
    assert_eq!(grid.cell_at(0, 1).value, 0);
    assert!(!grid.cell_at(0, 1).initial);
}

#[test]
fn load_rejects_missing_separator() {
    let mut lines: Vec<Vec<u8>> = vec![b"0-".to_vec(); 81];
    lines[3] = b"5i".to_vec();
    let err = load(&lines).unwrap_err();
    assert_eq!(err.line, 3);
}

#[test]
fn load_rejects_non_digit_value_token() {
    let mut lines: Vec<Vec<u8>> = vec![b"0-".to_vec(); 81];
    lines[0] = b"x-".to_vec();
    let err = load(&lines).unwrap_err();
    assert_eq!(err.line, 0);
}

#[test]
fn load_rejects_bad_note_suffix() {
    let mut lines: Vec<Vec<u8>> = vec![b"0-".to_vec(); 81];
    lines[10] = b"0-15x".to_vec();
    let err = load(&lines).unwrap_err();
    assert_eq!(err.line, 10);
}

#[test]
fn load_rejects_bad_given_suffix() {
    let mut lines: Vec<Vec<u8>> = vec![b"0-".to_vec(); 81];
    lines[7] = b"5-q".to_vec();
    let err = load(&lines).unwrap_err();
    assert_eq!(err.line, 7);
}

#[test]
fn load_rejects_empty_line() {
    let mut lines: Vec<Vec<u8>> = vec![b"0-".to_vec(); 81];
    lines[80] = b"".to_vec();
    let err = load(&lines).unwrap_err();
    assert_eq!(err.line, 80);
}

#[test]
fn load_reports_first_bad_line() {
    let mut lines: Vec<Vec<u8>> = vec![b"0-".to_vec(); 81];
    lines[5] = b"bad".to_vec();
    lines[9] = b"also bad".to_vec();
    let err = load(&lines).unwrap_err();
    assert_eq!(err.line, 5);
}
