//! Tests of the cell primitives: defaults, note flags and color resets.

use sudoku_board::cell::{Cell, CellOption};
use sudoku_board::color::{Color, Theme};

#[test]
fn fresh_cell_is_empty_with_no_notes() {
    let cell = Cell::default();
    assert_eq!(cell.value, 0);
    assert!(!cell.initial);
    for d in 0..9 {
        assert!(!cell.options.values[d].valid);
    }
    let th = Theme::default();
    assert_eq!(cell.bg, th.black);
    assert_eq!(cell.fg, th.white);
    assert_eq!(cell.options.values[0].bg, th.dark_grey);
    assert_eq!(cell.options.values[0].fg, th.white);
}

#[test]
fn option_reset_reverts_to_stored_defaults() {
    let mut option = CellOption::default();
    let stained = Color { r: 1, g: 2, b: 3 };
    option.bg = stained;
    option.fg = stained;
    option.reset_bg();
    assert_eq!(option.bg, option.default_bg);
    assert_eq!(option.fg, stained);
    option.reset_fg();
    assert_eq!(option.fg, option.default_fg);
    option.bg = stained;
    option.fg = stained;
    option.reset_colors();
    assert_eq!(option.bg, option.default_bg);
    assert_eq!(option.fg, option.default_fg);
}

#[test]
fn note_flags_add_remove_and_toggle() {
    let mut cell = Cell::default();
    cell.add_option(4);
    assert!(cell.options.values[3].valid);
    cell.add_option(4);
    assert!(cell.options.values[3].valid, "adding is monotonic");
    cell.remove_option(4);
    assert!(!cell.options.values[3].valid);
    cell.toggle_option(9);
    assert!(cell.options.values[8].valid);
    cell.toggle_option(9);
    assert!(!cell.options.values[8].valid);
}

#[test]
fn cell_set_value_and_reset_colors() {
    let mut cell = Cell::default();
    cell.set_value(7);
    assert_eq!(cell.value, 7);
    let stained = Color { r: 9, g: 9, b: 9 };
    cell.bg = stained;
    cell.options.values[2].fg = stained;
    cell.reset_colors();
    assert_eq!(cell.bg, cell.default_bg);
    assert_eq!(cell.options.values[2].fg, cell.options.values[2].default_fg);
    assert_eq!(cell.value, 7, "reset touches colors only");
}
