//! The persistence codec: one record line per cell, 81 lines in row-major
//! order, the same order as the 81-character puzzle string.
//!
//! A record line is `<value>-<suffix>`, where a committed cell writes its
//! digit and the suffix `i` when it is a given (empty suffix otherwise),
//! and an empty cell writes `0` and the digits of its live notes in
//! ascending order. Override colors are not persisted: loading yields cells
//! with every color at its default.
//!
//! Reading and writing the file itself is the caller's business; the codec
//! maps cells to line bytes and back, and line framing (the newline between
//! records) stays with the file layer.

use vstd::prelude::*;

use crate::cell::cell_inv;
use crate::cell::default_cell;
use crate::cell::default_option;
use crate::cell::Cell;
use crate::cell::CellModel;
use crate::cell::CellOption;
use crate::grid::grid_inv;
use crate::grid::Grid;

verus! {

broadcast use vstd::array::group_array_axioms;

/// ASCII `'0'`.
pub const ZERO_BYTE: u8 = 48;

/// ASCII `'-'`, the separator between value and suffix.
pub const SEP_BYTE: u8 = 45;

/// ASCII `'i'`, the suffix marking a given cell.
pub const GIVEN_BYTE: u8 = 105;

/// Digit `d` (0..=9) as its ASCII byte.
pub open spec fn digit_byte(d: int) -> u8 {
    (48 + d) as u8
}

/// The ASCII digits of the cell's live notes among `1..=hi`, ascending.
pub open spec fn note_digits_upto(c: CellModel, hi: int) -> Seq<u8>
    decreases hi,
{
    if hi <= 0 {
        Seq::empty()
    } else {
        note_digits_upto(c, hi - 1) + if c.slots[hi - 1].valid {
            seq![digit_byte(hi)]
        } else {
            Seq::<u8>::empty()
        }
    }
}

/// The ASCII digits of all the cell's live notes, ascending.
pub open spec fn note_digits(c: CellModel) -> Seq<u8> {
    note_digits_upto(c, 9)
}

/// The record line (without the newline) that one cell saves to.
pub open spec fn cell_record(c: CellModel) -> Seq<u8> {
    if c.value != 0 {
        seq![digit_byte(c.value), SEP_BYTE] + if c.initial {
            seq![GIVEN_BYTE]
        } else {
            Seq::<u8>::empty()
        }
    } else {
        seq![ZERO_BYTE, SEP_BYTE] + note_digits(c)
    }
}

/// The cell a record line stands for, with every color at its default, or
/// `None` when the line is malformed: shorter than two bytes, not opening
/// with a digit and the separator, a committed cell's suffix other than
/// empty or `i`, or an empty cell's suffix holding anything but digits
/// `1..=9`.
pub open spec fn parse_record(l: Seq<u8>) -> Option<CellModel> {
    if l.len() < 2 || !(48 <= l[0] <= 57) || l[1] != SEP_BYTE {
        None
    } else if l[0] == ZERO_BYTE {
        if forall|i: int| 2 <= i < l.len() ==> 49 <= #[trigger] l[i] <= 57 {
            Some(
                CellModel {
                    slots: Seq::new(
                        9,
                        |j: int|
                            CellOption {
                                valid: l.subrange(2, l.len() as int).contains(digit_byte(j + 1)),
                                ..default_option()
                            },
                    ),
                    ..default_cell()
                },
            )
        } else {
            None
        }
    } else {
        if l.len() == 2 {
            Some(CellModel { value: l[0] as int - 48, initial: false, ..default_cell() })
        } else if l.len() == 3 && l[2] == GIVEN_BYTE {
            Some(CellModel { value: l[0] as int - 48, initial: true, ..default_cell() })
        } else {
            None
        }
    }
}

/// How many record lines a load of `n` lines reads: all of them, up to 81.
pub open spec fn loaded_count(n: int) -> int {
    if n < 81 {
        n
    } else {
        81
    }
}

/// A load error: the index of the first malformed record line.
#[derive(Clone, Copy, PartialEq, Eq, Structural, Debug)]
pub struct ParseError {
    pub line: usize,
}

/// The record line of one cell.
fn record_line(cell: &Cell) -> (line: Vec<u8>)
    requires
        cell_inv(cell@),
    ensures
        line@ == cell_record(cell@),
{
    let mut line: Vec<u8> = Vec::new();
    if cell.value != 0 {
        line.push(48 + cell.value as u8);
        line.push(SEP_BYTE);
        if cell.initial {
            line.push(GIVEN_BYTE);
        }
        proof {
            assert(line@ =~= cell_record(cell@));
        }
    } else {
        line.push(ZERO_BYTE);
        line.push(SEP_BYTE);
        let mut d: usize = 1;
        while d <= 9
            invariant
                1 <= d <= 10,
                cell_inv(cell@),
                cell.value == 0,
                line@ == seq![ZERO_BYTE, SEP_BYTE] + note_digits_upto(cell@, d as int - 1),
            decreases 10 - d,
        {
            if cell.options.values[d - 1].valid {
                line.push(48 + d as u8);
            }
            proof {
                assert(line@ =~= seq![ZERO_BYTE, SEP_BYTE] + note_digits_upto(cell@, d as int));
            }
            d += 1;
        }
        proof {
            assert(line@ =~= cell_record(cell@));
        }
    }
    line
}

/// The 81 record lines of a grid, row-major, one line per cell.
pub fn save(grid: &Grid) -> (lines: Vec<Vec<u8>>)
    requires
        grid_inv(grid@),
    ensures
        lines@.len() == 81,
        forall|i: int| 0 <= i < 81 ==> (#[trigger] lines@[i])@ == cell_record(grid@[i]),
{
    let mut lines: Vec<Vec<u8>> = Vec::new();
    let mut k: usize = 0;
    while k < 81
        invariant
            grid_inv(grid@),
            k <= 81,
            lines@.len() == k,
            forall|i: int| 0 <= i < k ==> (#[trigger] lines@[i])@ == cell_record(grid@[i]),
        decreases 81 - k,
    {
        proof {
            assert(grid@[k as int] == grid.cells[k as int]@);
        }
        let line = record_line(&grid.cells[k]);
        lines.push(line);
        k += 1;
    }
    lines
}

/// The cell one record line stands for, or `None` when it is malformed.
fn parse_line(line: &Vec<u8>) -> (r: Option<Cell>)
    ensures
        match r {
            Some(c) => {
                &&& parse_record(line@) is Some
                &&& c@ == parse_record(line@).unwrap()
                &&& cell_inv(c@)
            },
            None => parse_record(line@) is None,
        },
{
    if line.len() < 2 {
        return None;
    }
    let b0 = line[0];
    if b0 < 48 || b0 > 57 {
        return None;
    }
    if line[1] != SEP_BYTE {
        return None;
    }
    let mut cell = Cell::default();
    if b0 == ZERO_BYTE {
        let mut i: usize = 2;
        while i < line.len()
            invariant
                2 <= i <= line@.len(),
                line@[0] == ZERO_BYTE,
                line@[1] == SEP_BYTE,
                forall|j: int| 2 <= j < i ==> 49 <= #[trigger] line@[j] <= 57,
                cell@.value == 0,
                cell@.initial == false,
                cell@.bg == default_cell().bg,
                cell@.fg == default_cell().fg,
                cell@.default_bg == default_cell().default_bg,
                cell@.default_fg == default_cell().default_fg,
                forall|j: int|
                    0 <= j < 9 ==> cell@.slots[j] == (CellOption {
                        valid: line@.subrange(2, i as int).contains(digit_byte(j + 1)),
                        ..default_option()
                    }),
            decreases line@.len() - i,
        {
            let b = line[i];
            if b < 49 || b > 57 {
                return None;
            }
            let ghost old_cell_slots = cell@.slots;
            let mut o = cell.options.values[(b - 49) as usize];
            o.valid = true;
            cell.options.values[(b - 49) as usize] = o;
            proof {
                assert(line@.subrange(2, i as int + 1) =~= line@.subrange(2, i as int).push(
                    line@[i as int],
                ));
                assert forall|x: u8| #![trigger line@.subrange(2, i as int + 1).contains(x)]
                    line@.subrange(2, i as int + 1).contains(x) == (line@.subrange(
                    2,
                    i as int,
                ).contains(x) || line@[i as int] == x) by {
                    let pre = line@.subrange(2, i as int);
                    let post = line@.subrange(2, i as int + 1);
                    if pre.contains(x) {
                        let w = choose|w: int| 0 <= w < pre.len() && pre[w] == x;
                        assert(post[w] == x);
                    }
                    if line@[i as int] == x {
                        assert(post[post.len() - 1] == x);
                    }
                    if post.contains(x) {
                        let w = choose|w: int| 0 <= w < post.len() && post[w] == x;
                        if w < post.len() - 1 {
                            assert(pre[w] == x);
                        }
                    }
                }
                assert forall|j: int| 0 <= j < 9 implies cell@.slots[j] == (CellOption {
                    valid: line@.subrange(2, i as int + 1).contains(digit_byte(j + 1)),
                    ..default_option()
                }) by {
                    assert(digit_byte(j + 1) == (49 + j) as u8);
                    if j != b as int - 49 {
                        assert(cell@.slots[j] == old_cell_slots[j]);
                    }
                }
            }
            i += 1;
        }
        proof {
            assert(line@.subrange(2, line@.len() as int) =~= line@.subrange(2, i as int));
            assert(cell@.slots =~= parse_record(line@).unwrap().slots);
            assert(cell@ =~= parse_record(line@).unwrap());
        }
        Some(cell)
    } else {
        let value = (b0 - 48) as usize;
        if line.len() == 2 {
            cell.value = value;
            proof {
                assert(cell@ =~= parse_record(line@).unwrap());
            }
            Some(cell)
        } else if line.len() == 3 && line[2] == GIVEN_BYTE {
            cell.value = value;
            cell.initial = true;
            proof {
                assert(cell@ =~= parse_record(line@).unwrap());
            }
            Some(cell)
        } else {
            None
        }
    }
}

/// A grid read back from record lines.
///
/// The first 81 lines fill the cells in row-major order; lines beyond the
/// 81st are ignored, and with fewer than 81 lines the remaining cells stay
/// fresh and empty. The load aborts on the first malformed line, naming
/// its index, and succeeds if and only if every line it reads is well
/// formed.
pub fn load(lines: &Vec<Vec<u8>>) -> (r: Result<Grid, ParseError>)
    ensures
        match r {
            Ok(g) => {
                &&& grid_inv(g@)
                &&& forall|i: int|
                    0 <= i < loaded_count(lines@.len() as int) ==> parse_record(
                        (#[trigger] lines@[i])@,
                    ) is Some && g@[i] == parse_record(lines@[i]@).unwrap()
                &&& forall|i: int|
                    loaded_count(lines@.len() as int) <= i < 81 ==> g@[i] == default_cell()
            },
            Err(e) => {
                &&& e.line < loaded_count(lines@.len() as int)
                &&& parse_record(lines@[e.line as int]@) is None
                &&& forall|i: int| 0 <= i < e.line ==> parse_record((#[trigger] lines@[i])@) is Some
            },
        },
{
    let n = if lines.len() < 81 {
        lines.len()
    } else {
        81
    };
    let mut g = Grid::default();
    proof {
        assert(forall|i: int| 0 <= i < 81 ==> (#[trigger] g.cells[i])@ == g@[i]);
    }
    let mut idx: usize = 0;
    while idx < n
        invariant
            n as int == loaded_count(lines@.len() as int),
            n <= lines@.len(),
            idx <= n,
            forall|i: int|
                0 <= i < idx ==> parse_record((#[trigger] lines@[i])@) is Some
                    && g.cells[i]@ == parse_record(lines@[i]@).unwrap(),
            forall|i: int| 0 <= i < idx ==> cell_inv((#[trigger] g.cells[i])@),
            forall|i: int| idx <= i < 81 ==> (#[trigger] g.cells[i])@ == default_cell(),
        decreases n - idx,
    {
        match parse_line(&lines[idx]) {
            Some(cell) => {
                g.cells[idx] = cell;
            },
            None => {
                return Err(ParseError { line: idx });
            },
        }
        idx += 1;
    }
    proof {
        assert(cell_inv(default_cell()));
        assert(forall|i: int| 0 <= i < 81 ==> g.cells[i]@ == #[trigger] g@[i]);
        assert(forall|i: int| 0 <= i < 81 ==> cell_inv(#[trigger] g@[i]));
    }
    Ok(g)
}

} // verus!
