//! The grid of cells that a frame is rendered into.

use crate::geometry::Rect;
use crate::style::Color;
use vstd::prelude::*;

verus! {

/// Adds one character at the end of a string.
///
/// Specifies `std::string::String::push`: the string keeps what it held and
/// ends with the new character.
pub assume_specification[ String::push ](s: &mut String, c: char)
    ensures
        final(s)@ == old(s)@.push(c),
;

/// How a cell takes part in the comparison of two frames.
#[derive(Clone, Copy, Debug, PartialEq, Eq, Structural)]
pub enum CellDiffOption {
    /// Emitted when it changed.
    Normal,
    /// Never emitted.
    Skip,
    /// Emitted on every frame.
    AlwaysUpdate,
    /// Counted as this many columns wide, whatever its symbol is.
    ForcedWidth(u16),
}

/// One cell of the grid.
#[derive(Clone, Debug)]
pub struct Cell {
    pub symbol: String,
    pub fg: Color,
    pub bg: Color,
    /// Text attributes, one bit each.
    pub modifier: u16,
    pub diff_option: CellDiffOption,
    /// Older way to say that the cell is never emitted.
    pub skip: bool,
}

/// What a cell holds.
pub struct CellView {
    pub symbol: Seq<char>,
    pub fg: Color,
    pub bg: Color,
    pub modifier: u16,
    pub diff_option: CellDiffOption,
    pub skip: bool,
}

impl View for Cell {
    type V = CellView;

    open spec fn view(&self) -> CellView {
        CellView {
            symbol: self.symbol@,
            fg: self.fg,
            bg: self.bg,
            modifier: self.modifier,
            diff_option: self.diff_option,
            skip: self.skip,
        }
    }
}

impl CellView {
    /// The cell with `controls` behind its symbol and nothing else changed.
    pub open spec fn with_controls(self, controls: Seq<char>) -> CellView {
        CellView { symbol: self.symbol + controls, ..self }
    }

    /// The cell is never emitted.
    pub open spec fn skipped(self) -> bool {
        self.diff_option is Skip || (self.skip && self.diff_option is Normal)
    }
}

/// A grid of cells, row by row, and the area of the screen that it stands for.
#[derive(Clone, Debug)]
pub struct Buffer {
    pub area: Rect,
    pub content: Vec<Cell>,
}

/// What a grid holds.
pub struct BufferView {
    pub area: Rect,
    pub cells: Seq<CellView>,
}

impl View for Buffer {
    type V = BufferView;

    open spec fn view(&self) -> BufferView {
        BufferView { area: self.area, cells: self.content@.map_values(|cell: Cell| cell@) }
    }
}

impl BufferView {
    /// The grid holds one cell for each place of its area.
    pub open spec fn well_formed(self) -> bool {
        self.cells.len() == self.area.width * self.area.height
    }

    /// Column `x` and row `y` are places of the grid.
    pub open spec fn has(self, x: int, y: int) -> bool {
        &&& self.area.x <= x < self.area.x + self.area.width
        &&& self.area.y <= y < self.area.y + self.area.height
    }

    /// Where the cell at column `x` and row `y` is kept.
    pub open spec fn offset(self, x: int, y: int) -> int {
        (y - self.area.y) * self.area.width + (x - self.area.x)
    }

    /// The cell at column `x` and row `y`.
    pub open spec fn at(self, x: int, y: int) -> CellView {
        self.cells[self.offset(x, y)]
    }

    /// The offset of a place of the grid is an index into its cells, and no
    /// two places share one.
    pub proof fn lemma_offset(self, x: int, y: int)
        requires
            self.well_formed(),
            self.has(x, y),
        ensures
            0 <= self.offset(x, y) < self.cells.len(),
            self.offset(x, y) <= 0xffff * 0xffff + 0xffff,
    {
        let (r, w, h) = (y - self.area.y, self.area.width as int, self.area.height as int);
        assert(0 <= r * w && r * w + w <= h * w) by (nonlinear_arith)
            requires
                0 <= r < h,
                0 <= w,
        ;
        assert(r * w <= 0xffff * 0xffff) by (nonlinear_arith)
            requires
                0 <= r <= 0xffff,
                0 <= w <= 0xffff,
        ;
        assert(w * h == h * w) by (nonlinear_arith);
    }

    /// Two places with one offset are the same place.
    pub proof fn lemma_offset_injective(self, x: int, y: int, other_x: int, other_y: int)
        requires
            self.has(x, y),
            self.has(other_x, other_y),
            self.offset(x, y) == self.offset(other_x, other_y),
        ensures
            x == other_x,
            y == other_y,
    {
        let (r, q, w) = (y - self.area.y, other_y - self.area.y, self.area.width as int);
        let (c, d) = (x - self.area.x, other_x - self.area.x);
        assert(r == q) by (nonlinear_arith)
            requires
                r * w + c == q * w + d,
                0 <= c < w,
                0 <= d < w,
        ;
    }
}

impl Cell {
    /// The cell is never emitted: by its diff option, or by the older flag
    /// when the diff option says nothing.
    pub fn is_skipped(&self) -> (skipped: bool)
        ensures
            skipped == self@.skipped(),
    {
        match self.diff_option {
            CellDiffOption::Skip => true,
            CellDiffOption::Normal => self.skip,
            _ => false,
        }
    }
}

impl Buffer {
    /// Index of the cell at column `x` and row `y`.
    fn index_of(&self, x: u16, y: u16) -> (index: usize)
        requires
            self@.well_formed(),
            self@.has(x as int, y as int),
        ensures
            index == self@.offset(x as int, y as int),
            index < self.content.len(),
    {
        proof {
            self@.lemma_offset(x as int, y as int);
            let (r, w) = (y - self.area.y, self.area.width as int);
            assert(0 <= r * w <= 0xffff * 0xffff) by (nonlinear_arith)
                requires
                    0 <= r <= 0xffff,
                    0 <= w <= 0xffff,
            ;
        }
        (y - self.area.y) as usize * self.area.width as usize + (x - self.area.x) as usize
    }

    /// The cell at column `x` and row `y`.
    pub fn cell(&self, x: u16, y: u16) -> (cell: &Cell)
        requires
            self@.well_formed(),
            self@.has(x as int, y as int),
        ensures
            cell@ == self@.at(x as int, y as int),
    {
        let index = self.index_of(x, y);
        &self.content[index]
    }

    /// Adds a character behind the symbol of the cell at column `x` and row
    /// `y`. The rest of that cell and every other cell stay as they are.
    pub fn append_symbol(&mut self, x: u16, y: u16, control: char)
        requires
            old(self)@.well_formed(),
            old(self)@.has(x as int, y as int),
        ensures
            final(self)@.area == old(self)@.area,
            final(self)@.well_formed(),
            forall|c: int, r: int|
                old(self)@.has(c, r) ==> #[trigger] final(self)@.at(c, r) == (if c == x && r == y {
                    old(self)@.at(c, r).with_controls(seq![control])
                } else {
                    old(self)@.at(c, r)
                }),
    {
        let index = self.index_of(x, y);
        self.content[index].symbol.push(control);
        proof {
            let (before, after) = (old(self)@, self@);
            assert forall|c: int, r: int| before.has(c, r) implies #[trigger] after.at(c, r) == (
            if c == x && r == y {
                before.at(c, r).with_controls(seq![control])
            } else {
                before.at(c, r)
            }) by {
                before.lemma_offset(c, r);
                if before.offset(c, r) == index {
                    before.lemma_offset_injective(c, r, x as int, y as int);
                    assert(after.at(c, r).symbol == before.at(c, r).symbol + seq![control]);
                }
            }
        }
    }
}

} // verus!
