//! One square of the board: a committed value, whether it was given in the
//! initial puzzle, nine candidate slots, and override colors.
//!
//! Everything a cell holds is a plain value, so a cell is `Copy` and can be
//! read and rebuilt freely. The mathematical model of a cell is [`CellModel`];
//! every contract on the board speaks in terms of it.

use vstd::prelude::*;

use crate::color::default_theme;
use crate::color::Color;

verus! {

broadcast use vstd::array::group_array_axioms;

/// One candidate slot: whether the digit is a live note for its cell, the
/// colors it is currently drawn with, and the default pair it reverts to.
#[derive(Clone, Copy, PartialEq, Eq, Structural, Debug)]
pub struct CellOption {
    pub valid: bool,
    pub fg: Color,
    pub bg: Color,
    pub default_fg: Color,
    pub default_bg: Color,
}

/// The state a fresh candidate slot starts in: not a live note, drawn in the
/// theme's note colors, which are also its stored defaults.
pub open spec fn default_option() -> CellOption {
    CellOption {
        valid: false,
        fg: default_theme().white,
        bg: default_theme().dark_grey,
        default_fg: default_theme().white,
        default_bg: default_theme().dark_grey,
    }
}

/// The slot with its override colors reverted to the stored defaults.
pub open spec fn option_reset(o: CellOption) -> CellOption {
    CellOption { bg: o.default_bg, fg: o.default_fg, ..o }
}

/// The slot after candidate elimination: no longer a live note, and its
/// override colors reverted.
pub open spec fn option_eliminated(o: CellOption) -> CellOption {
    CellOption { valid: false, bg: o.default_bg, fg: o.default_fg, ..o }
}

impl Default for CellOption {
    fn default() -> (o: CellOption)
        ensures
            o == default_option(),
    {
        CellOption {
            valid: false,
            fg: Color { r: 200, g: 200, b: 200 },
            bg: Color { r: 65, g: 72, b: 104 },
            default_fg: Color { r: 200, g: 200, b: 200 },
            default_bg: Color { r: 65, g: 72, b: 104 },
        }
    }
}

impl CellOption {
    pub fn reset_bg(&mut self)
        ensures
            *final(self) == (CellOption { bg: old(self).default_bg, ..*old(self) }),
    {
        self.bg = self.default_bg;
    }

    pub fn reset_fg(&mut self)
        ensures
            *final(self) == (CellOption { fg: old(self).default_fg, ..*old(self) }),
    {
        self.fg = self.default_fg;
    }

    pub fn reset_colors(&mut self)
        ensures
            *final(self) == option_reset(*old(self)),
    {
        self.reset_bg();
        self.reset_fg();
    }
}

/// The nine candidate slots of one cell; index `i` stands for digit `i + 1`.
#[derive(Clone, Copy, Debug)]
pub struct CellOptions {
    pub values: [CellOption; 9],
}

impl Default for CellOptions {
    fn default() -> (o: CellOptions)
        ensures
            forall|i: int| 0 <= i < 9 ==> o.values[i] == default_option(),
    {
        let d = CellOption::default();
        let values = [d; 9];
        proof {
            vstd::array::axiom_spec_array_fill_for_copy_type::<CellOption, 9>(d);
        }
        CellOptions { values }
    }
}

/// One square of the grid.
///
/// `value == 0` means the cell is empty and shown through its candidate
/// slots; `1..=9` is a committed digit. `initial` marks a given of the
/// puzzle, which user edits never change. `bg`/`fg` are the override colors
/// of the committed-digit glyph, with `default_bg`/`default_fg` the pair
/// they revert to.
#[derive(Clone, Copy, Debug)]
pub struct Cell {
    pub value: usize,
    pub initial: bool,
    pub bg: Color,
    pub fg: Color,
    pub default_bg: Color,
    pub default_fg: Color,
    pub options: CellOptions,
}

/// The mathematical model of a cell: the same data with the slots as a
/// sequence and the value as an unbounded integer.
#[verifier::ext_equal]
pub ghost struct CellModel {
    pub value: int,
    pub initial: bool,
    pub bg: Color,
    pub fg: Color,
    pub default_bg: Color,
    pub default_fg: Color,
    pub slots: Seq<CellOption>,
}

impl View for Cell {
    type V = CellModel;

    open spec fn view(&self) -> CellModel {
        CellModel {
            value: self.value as int,
            initial: self.initial,
            bg: self.bg,
            fg: self.fg,
            default_bg: self.default_bg,
            default_fg: self.default_fg,
            slots: self.options.values@,
        }
    }
}

/// What every cell of a well-formed grid satisfies: the value is a digit or
/// zero, there are exactly nine slots, and a given cell always carries a
/// committed digit.
pub open spec fn cell_inv(c: CellModel) -> bool {
    &&& 0 <= c.value <= 9
    &&& c.slots.len() == 9
    &&& (c.initial ==> 1 <= c.value)
}

/// The state a fresh cell starts in: empty, not a given, theme colors.
pub open spec fn default_cell() -> CellModel {
    CellModel {
        value: 0,
        initial: false,
        bg: default_theme().black,
        fg: default_theme().white,
        default_bg: default_theme().black,
        default_fg: default_theme().white,
        slots: Seq::new(9, |i: int| default_option()),
    }
}

/// The cell with every override color (its own and each slot's) reverted to
/// the stored defaults; value, given flag and note flags kept.
pub open spec fn cell_reset(c: CellModel) -> CellModel {
    CellModel {
        bg: c.default_bg,
        fg: c.default_fg,
        slots: Seq::new(c.slots.len(), |i: int| option_reset(c.slots[i])),
        ..c
    }
}

/// The cell after digit `d` is eliminated as a candidate: slot `d - 1` is no
/// longer a live note and its colors are reverted; nothing else moves.
pub open spec fn cell_eliminate(c: CellModel, d: int) -> CellModel {
    CellModel { slots: c.slots.update(d - 1, option_eliminated(c.slots[d - 1])), ..c }
}

impl Default for Cell {
    fn default() -> (c: Cell)
        ensures
            c@ == default_cell(),
    {
        let c = Cell {
            value: 0,
            initial: false,
            bg: Color { r: 31, g: 35, b: 53 },
            fg: Color { r: 200, g: 200, b: 200 },
            default_bg: Color { r: 31, g: 35, b: 53 },
            default_fg: Color { r: 200, g: 200, b: 200 },
            options: CellOptions::default(),
        };
        proof {
            assert(c@ =~= default_cell());
        }
        c
    }
}

impl Cell {
    /// Commit `value` on this cell (`0` clears it back to empty).
    pub fn set_value(&mut self, value: usize)
        requires
            value <= 9,
        ensures
            final(self)@ == (CellModel { value: value as int, ..old(self)@ }),
    {
        self.value = value;
    }

    /// Make digit `value` a live note. Monotonic: it never clears a note and
    /// touches no colors.
    pub fn add_option(&mut self, value: usize)
        requires
            1 <= value <= 9,
        ensures
            final(self)@ == (CellModel {
                slots: old(self)@.slots.update(
                    value - 1,
                    (CellOption { valid: true, ..old(self)@.slots[value - 1] }),
                ),
                ..old(self)@
            }),
    {
        let mut o = self.options.values[value - 1];
        o.valid = true;
        self.options.values[value - 1] = o;
    }

    /// Drop digit `value` as a live note; its slot's colors are not touched.
    pub fn remove_option(&mut self, value: usize)
        requires
            1 <= value <= 9,
        ensures
            final(self)@ == (CellModel {
                slots: old(self)@.slots.update(
                    value - 1,
                    (CellOption { valid: false, ..old(self)@.slots[value - 1] }),
                ),
                ..old(self)@
            }),
    {
        let mut o = self.options.values[value - 1];
        o.valid = false;
        self.options.values[value - 1] = o;
    }

    /// Flip whether digit `value` is a live note.
    pub fn toggle_option(&mut self, value: usize)
        requires
            1 <= value <= 9,
        ensures
            final(self)@ == (CellModel {
                slots: old(self)@.slots.update(
                    value - 1,
                    (CellOption {
                        valid: !old(self)@.slots[value - 1].valid,
                        ..old(self)@.slots[value - 1]
                    }),
                ),
                ..old(self)@
            }),
    {
        let mut o = self.options.values[value - 1];
        o.valid = !o.valid;
        self.options.values[value - 1] = o;
    }

    /// Revert the cell's override colors and every slot's to their defaults.
    pub fn reset_colors(&mut self)
        ensures
            final(self)@ == cell_reset(old(self)@),
    {
        self.bg = self.default_bg;
        self.fg = self.default_fg;
        let mut i: usize = 0;
        while i < 9
            invariant
                i <= 9,
                self.value == old(self).value,
                self.initial == old(self).initial,
                self.bg == old(self).default_bg,
                self.fg == old(self).default_fg,
                self.default_bg == old(self).default_bg,
                self.default_fg == old(self).default_fg,
                forall|j: int|
                    0 <= j < i ==> self.options.values[j] == option_reset(
                        old(self).options.values[j],
                    ),
                forall|j: int| i <= j < 9 ==> self.options.values[j] == old(self).options.values[j],
            decreases 9 - i,
        {
            let mut o = self.options.values[i];
            o.bg = o.default_bg;
            o.fg = o.default_fg;
            self.options.values[i] = o;
            i += 1;
        }
        proof {
            assert(self@ =~= cell_reset(old(self)@));
        }
    }
}

} // verus!
