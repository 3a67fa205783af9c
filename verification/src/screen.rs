use vstd::prelude::*;

use crate::color::Color;

verus! {

/// Number of rows the screen ring may hold.
pub const MAX_ROWS: usize = 64;

/// Target width of a fresh row; printing past the end extends the row.
pub const ROW_LEN: usize = 256;

/// The smallest stylable unit of terminal output: one character together
/// with the attributes that were current when it was printed.
#[derive(Clone, Copy, Debug, PartialEq, Eq)]
pub struct Cell {
    pub text: char,
    pub foreground: Color,
    pub background: Color,
    pub bold: bool,
    pub italic: bool,
    pub underline: bool,
    pub dim: bool,
}

/// A blank cell: a space in the default style (bright white on black).
pub open spec fn default_cell() -> Cell {
    Cell {
        text: ' ',
        foreground: Color::EightBit(15),
        background: Color::EightBit(0),
        bold: false,
        italic: false,
        underline: false,
        dim: false,
    }
}

impl Default for Cell {
    fn default() -> (r: Self)
        ensures
            r == default_cell(),
    {
        Cell {
            text: ' ',
            foreground: Color::bright_white(),
            background: Color::black(),
            bold: false,
            italic: false,
            underline: false,
            dim: false,
        }
    }
}

/// Mathematical view of a row: its cells and the cursor column.
pub ghost struct RowModel {
    pub cells: Seq<Cell>,
    pub pos: nat,
}

/// A fresh row: `ROW_LEN` blank cells, cursor at column 0.
pub open spec fn fresh_row() -> RowModel {
    RowModel { cells: Seq::new(ROW_LEN as nat, |i: int| default_cell()), pos: 0 }
}

/// Writing a cell at the cursor: overwrite in place, or append when the
/// cursor is past the end of the buffer; the cursor advances by one.
pub open spec fn row_print(r: RowModel, cell: Cell) -> RowModel {
    if r.pos < r.cells.len() {
        RowModel { cells: r.cells.update(r.pos as int, cell), pos: r.pos + 1 }
    } else {
        RowModel { cells: r.cells.push(cell), pos: r.pos + 1 }
    }
}

/// An ordered sequence of cells plus the cursor column being written.
pub struct Row {
    pub cells: Vec<Cell>,
    pub position: usize,
}

impl View for Row {
    type V = RowModel;

    open spec fn view(&self) -> RowModel {
        RowModel { cells: self.cells@, pos: self.position as nat }
    }
}

impl Row {
    pub fn new() -> (r: Self)
        ensures
            r@ == fresh_row(),
    {
        let mut cells: Vec<Cell> = Vec::new();
        let mut i: usize = 0;
        while i < ROW_LEN
            invariant
                i <= ROW_LEN,
                cells@ =~= Seq::new(i as nat, |j: int| default_cell()),
            decreases ROW_LEN - i,
        {
            cells.push(Cell::default());
            i += 1;
        }
        let r = Row { cells, position: 0 };
        proof {
            assert(r@.cells =~= fresh_row().cells);
        }
        r
    }

    /// Reset to a fresh row: drop anything printed past the target width,
    /// blank the rest, and move the cursor home.
    pub fn clear(&mut self)
        ensures
            final(self)@ == fresh_row(),
    {
        self.cells.truncate(ROW_LEN);
        let mut i: usize = 0;
        while i < self.cells.len()
            invariant
                self.cells@.len() <= ROW_LEN,
                forall|j: int| 0 <= j < i ==> self.cells@[j] == default_cell(),
            decreases self.cells@.len() - i,
        {
            self.cells[i] = Cell::default();
            i += 1;
        }
        while self.cells.len() < ROW_LEN
            invariant
                self.cells@.len() <= ROW_LEN,
                forall|j: int| 0 <= j < self.cells@.len() ==> self.cells@[j] == default_cell(),
            decreases ROW_LEN - self.cells@.len(),
        {
            self.cells.push(Cell::default());
        }
        self.position = 0;
        proof {
            assert(final(self)@.cells =~= fresh_row().cells);
        }
    }

    /// Blank the text of every cell, keeping each cell's style.
    pub fn erase(&mut self)
        ensures
            final(self)@.cells =~= old(self)@.cells.map(
                |i: int, c: Cell| Cell { text: ' ', ..c },
            ),
            final(self)@.pos == old(self)@.pos,
    {
        let mut i: usize = 0;
        while i < self.cells.len()
            invariant
                self.cells@.len() == old(self).cells@.len(),
                self.position == old(self).position,
                forall|j: int|
                    0 <= j < i ==> self.cells@[j] == (Cell { text: ' ', ..old(self).cells@[j] }),
                forall|j: int| i <= j < self.cells@.len() ==> self.cells@[j] == old(self).cells@[j],
            decreases self.cells@.len() - i,
        {
            let c = self.cells[i];
            self.cells[i] = Cell { text: ' ', ..c };
            i += 1;
        }
    }

    pub fn seek(&mut self, position: usize)
        ensures
            final(self)@ == (RowModel { cells: old(self)@.cells, pos: position as nat }),
    {
        self.position = position;
    }

    pub fn print(&mut self, cell: Cell)
        requires
            old(self)@.pos <= old(self)@.cells.len(),
        ensures
            final(self)@ == row_print(old(self)@, cell),
    {
        if self.position < self.cells.len() {
            let p = self.position;
            self.cells[p] = cell;
            self.position = p + 1;
        } else {
            self.print_cold(cell);
            self.position = self.cells.len();
        }
    }

    /// Set the cursor to column `p`, padding the row with blank cells so
    /// the cursor never points past the buffer.
    pub fn set_col(&mut self, p: usize)
        ensures
            final(self)@.pos == p as nat,
            final(self)@.cells == if old(self)@.cells.len() < p as nat {
                old(self)@.cells + Seq::new(
                    (p as nat - old(self)@.cells.len()) as nat,
                    |i: int| default_cell(),
                )
            } else {
                old(self)@.cells
            },
    {
        self.position = p;
        let ghost orig = self.cells@;
        while self.cells.len() < p
            invariant
                self.position == p,
                orig.len() <= self.cells@.len(),
                orig.len() < p as nat ==> self.cells@.len() <= p as nat,
                orig.len() >= p as nat ==> self.cells@.len() == orig.len(),
                self.cells@ =~= orig + Seq::new(
                    (self.cells@.len() - orig.len()) as nat,
                    |i: int| default_cell(),
                ),
            decreases p - self.cells@.len(),
        {
            self.cells.push(Cell::default());
        }
        proof {
            if orig.len() >= p as nat {
                assert(self.cells@ =~= orig);
            } else {
                assert(self.cells@.len() == p as nat);
                assert(self.cells@ =~= orig + Seq::new(
                    (p as nat - orig.len()) as nat,
                    |i: int| default_cell(),
                ));
            }
        }
    }

    /// Drop everything after the cursor cell.
    pub fn trunc_line(&mut self)
        ensures
            final(self)@.pos == old(self)@.pos,
            final(self)@.cells == if old(self)@.pos < old(self)@.cells.len() {
                old(self)@.cells.take(old(self)@.pos as int + 1)
            } else {
                old(self)@.cells
            },
    {
        let ghost orig = self.cells@;
        if self.position < self.cells.len() {
            self.cells.truncate(self.position + 1);
            proof {
                assert(self.cells@ =~= orig.take(self.position as int + 1));
            }
        }
    }

    /// Blank every cell before the cursor.
    pub fn blank_before(&mut self)
        requires
            old(self)@.pos <= old(self)@.cells.len(),
        ensures
            final(self)@.pos == old(self)@.pos,
            final(self)@.cells =~= old(self)@.cells.map(
                |i: int, c: Cell| if i < old(self)@.pos { default_cell() } else { c },
            ),
    {
        let mut i: usize = 0;
        while i < self.position
            invariant
                i <= self.position,
                self.position == old(self).position,
                self.position <= self.cells@.len(),
                self.cells@.len() == old(self).cells@.len(),
                forall|j: int| 0 <= j < i ==> self.cells@[j] == default_cell(),
                forall|j: int| i <= j < self.cells@.len() ==> self.cells@[j] == old(
                    self,
                ).cells@[j],
            decreases self.position - i,
        {
            self.cells[i] = Cell::default();
            i += 1;
        }
        proof {
            let om = old(self)@.cells.map(
                |j: int, c: Cell| if j < old(self)@.pos { default_cell() } else { c },
            );
            assert(om.len() == self.cells@.len());
            assert forall|j: int| 0 <= j < self.cells@.len() implies self.cells@[j] == om[j] by {
                assert(om[j] == if j < old(self)@.pos {
                    default_cell()
                } else {
                    old(self)@.cells[j]
                });
            }
            assert(self.cells@ =~= om);
        }
    }

    fn print_cold(&mut self, cell: Cell)
        ensures
            final(self)@.cells == old(self)@.cells.push(cell),
            final(self)@.pos == old(self)@.pos,
    {
        self.cells.push(cell);
    }
}

} // verus!
