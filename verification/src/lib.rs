//! A verified Sudoku board engine.
//!
//! The engine holds a 9×9 grid of cells, a cursor, and every operation an
//! interactive editor needs: navigating with wraparound, committing a
//! digit with its candidate-elimination pass, toggling note digits,
//! highlighting and marking cells, reverting override colors, computing
//! candidates (`autofill`), and saving the grid to — and loading it from —
//! a line-oriented record format.
//!
//! Every operation carries a contract that pins the new state down
//! exactly, over the spec-level models in [`cell`], [`grid`] and
//! [`board`]; the laws the engine obeys — wraparound round trips,
//! given-cell immutability, elimination and autofill correctness,
//! highlight exclusivity and persistence round trips — are stated and
//! proved in [`laws`].

pub mod board;
pub mod cell;
pub mod codec;
pub mod color;
pub mod grid;
pub mod laws;
