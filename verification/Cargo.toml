[package]
name = "sudoku_board"
version = "0.1.0"
edition = "2021"
publish = false

[dependencies]
tui = "0.19"
crossterm = "0.25"
termion = "*"
