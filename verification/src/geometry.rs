//! Rectangles of terminal cells.

use ratatui::widgets::{Block, Borders};
use vstd::prelude::*;

verus! {

/// `n`, or the largest screen coordinate when `n` lies beyond it.
pub open spec fn clamp16(n: int) -> int {
    if n > u16::MAX {
        u16::MAX as int
    } else {
        n
    }
}

/// `n`, or zero when `n` is negative.
pub open spec fn at_least_zero(n: int) -> int {
    if n < 0 {
        0
    } else {
        n
    }
}

/// The smaller of two numbers.
pub open spec fn lesser(a: int, b: int) -> int {
    if a < b {
        a
    } else {
        b
    }
}

/// The larger of two numbers.
pub open spec fn greater(a: int, b: int) -> int {
    if a > b {
        a
    } else {
        b
    }
}

/// A rectangle of terminal cells, in screen coordinates.
#[derive(Clone, Copy, Debug, PartialEq, Eq, Structural)]
pub struct Rect {
    pub x: u16,
    pub y: u16,
    pub width: u16,
    pub height: u16,
}

impl Rect {
    /// First column to the right of the rectangle.
    pub open spec fn right_edge(self) -> int {
        clamp16(self.x + self.width)
    }

    /// First row below the rectangle.
    pub open spec fn bottom_edge(self) -> int {
        clamp16(self.y + self.height)
    }

    /// Both far edges are screen coordinates.
    pub open spec fn on_screen(self) -> bool {
        &&& self.x + self.width <= u16::MAX
        &&& self.y + self.height <= u16::MAX
    }

    /// The cell at column `x` and row `y` lies in the rectangle.
    pub open spec fn covers(self, x: int, y: int) -> bool {
        &&& self.x <= x < self.right_edge()
        &&& self.y <= y < self.bottom_edge()
    }

    /// Every cell of `self` lies in `outer`.
    pub open spec fn within(self, outer: Rect) -> bool {
        &&& outer.x <= self.x
        &&& self.x + self.width <= outer.x + outer.width
        &&& outer.y <= self.y
        &&& self.y + self.height <= outer.y + outer.height
    }

    /// A rectangle at `(x, y)`, its size limited so that both far edges are
    /// screen coordinates.
    pub fn new(x: u16, y: u16, width: u16, height: u16) -> (rect: Rect)
        ensures
            rect.x == x,
            rect.y == y,
            rect.width == clamp16(x + width) - x,
            rect.height == clamp16(y + height) - y,
            rect.on_screen(),
    {
        Rect { x, y, width: x.saturating_add(width) - x, height: y.saturating_add(height) - y }
    }

    /// First column of the rectangle.
    pub fn left(&self) -> (edge: u16)
        ensures
            edge == self.x,
    {
        self.x
    }

    /// First column to the right of the rectangle.
    pub fn right(&self) -> (edge: u16)
        ensures
            edge == self.right_edge(),
    {
        self.x.saturating_add(self.width)
    }

    /// First row of the rectangle.
    pub fn top(&self) -> (edge: u16)
        ensures
            edge == self.y,
    {
        self.y
    }

    /// First row below the rectangle.
    pub fn bottom(&self) -> (edge: u16)
        ensures
            edge == self.bottom_edge(),
    {
        self.y.saturating_add(self.height)
    }

    /// The rectangle holds no cell.
    pub fn is_empty(&self) -> (empty: bool)
        ensures
            empty == (self.width == 0 || self.height == 0),
    {
        self.width == 0 || self.height == 0
    }
}

/// The rectangle of at most `width` by `height` cells in the middle of `area`.
pub open spec fn centered(width: int, height: int, area: Rect) -> Rect {
    let w = lesser(width, area.width as int);
    let h = lesser(height, area.height as int);
    Rect {
        x: (area.x + (area.width - w) / 2) as u16,
        y: (area.y + (area.height - h) / 2) as u16,
        width: w as u16,
        height: h as u16,
    }
}

/// Places a rectangle of at most `width` by `height` cells in the middle of
/// `area`.
pub fn centered_rect(width: u16, height: u16, area: Rect) -> (rect: Rect)
    requires
        area.on_screen(),
    ensures
        rect == centered(width as int, height as int, area),
        rect.on_screen(),
        rect.within(area),
{
    let width = if width < area.width { width } else { area.width };
    let height = if height < area.height { height } else { area.height };
    Rect::new(
        area.x + (area.width - width) / 2,
        area.y + (area.height - height) / 2,
        width,
        height,
    )
}

/// What is left of `card` inside a border of one cell on each side.
pub open spec fn inside_border(card: Rect) -> Rect {
    Rect {
        x: lesser(clamp16(card.x + 1), card.right_edge()) as u16,
        y: lesser(clamp16(card.y + 1), card.bottom_edge()) as u16,
        width: at_least_zero(card.width - 2) as u16,
        height: at_least_zero(card.height - 2) as u16,
    }
}

/// The area inside a bordered block drawn on `card`.
///
/// Calls `ratatui::widgets::Block::inner` on a block with all four borders.
/// What is claimed: the block takes one cell off each side, a size that is too
/// small becomes zero, and the origin moves by one cell but not past the far
/// edge. A title in the top border takes no room of its own.
#[verifier::external_body]
fn block_inner(card: Rect) -> (inner: Rect)
    ensures
        inner == inside_border(card),
{
    let outer = ratatui::layout::Rect { x: card.x, y: card.y, width: card.width, height: card.height };
    let inner = Block::default().borders(Borders::ALL).inner(outer);
    Rect { x: inner.x, y: inner.y, width: inner.width, height: inner.height }
}

/// A card of the given size in the middle of `area`: the card itself and the
/// room inside its border.
pub fn place_card(width: u16, height: u16, area: Rect) -> (placed: (Rect, Rect))
    requires
        area.on_screen(),
    ensures
        placed.0 == centered(width as int, height as int, area),
        placed.1 == inside_border(placed.0),
        placed.0.on_screen(),
        placed.0.within(area),
{
    let card = centered_rect(width, height, area);
    (card, block_inner(card))
}

/// The space left over by a centered rectangle is split evenly: the two sides
/// differ by at most one cell. A rectangle that fits keeps its size, and one that
/// does not takes all there is.
pub proof fn law_centered_is_balanced(width: u16, height: u16, area: Rect)
    requires
        area.on_screen(),
    ensures
        ({
            let rect = centered(width as int, height as int, area);
            let left = rect.x - area.x;
            let right = area.x + area.width - (rect.x + rect.width);
            let above = rect.y - area.y;
            let below = area.y + area.height - (rect.y + rect.height);
            &&& 0 <= left <= right <= left + 1
            &&& 0 <= above <= below <= above + 1
            &&& width <= area.width ==> rect.width == width
            &&& height <= area.height ==> rect.height == height
            &&& width > area.width ==> rect.width == area.width
            &&& height > area.height ==> rect.height == area.height
        }),
{
}

/// The room inside a card's border never leaves the card.
pub proof fn law_inside_border_stays_in_card(card: Rect)
    requires
        card.on_screen(),
    ensures
        inside_border(card).within(card),
        inside_border(card).on_screen(),
{
}

/// A border takes one cell off each side of a card, and a card that is smaller than
/// its border has no room inside.
pub proof fn law_border_is_one_cell_wide(card: Rect)
    requires
        card.on_screen(),
    ensures
        ({
            let inner = inside_border(card);
            &&& card.width >= 2 ==> inner.x == card.x + 1 && inner.x + inner.width + 1 == card.x
                + card.width
            &&& card.height >= 2 ==> inner.y == card.y + 1 && inner.y + inner.height + 1 == card.y
                + card.height
            &&& card.width < 2 ==> inner.width == 0
            &&& card.height < 2 ==> inner.height == 0
        }),
{
}

/// A rectangle covers as many columns and rows as it is wide and high, from its
/// origin on, as far as screen coordinates reach.
pub proof fn law_rectangle_covers_its_size(rect: Rect, x: int, y: int)
    ensures
        rect.covers(x, y) <==> rect.x <= x < rect.x + rect.width && x < 0xffff && rect.y <= y
            < rect.y + rect.height && y < 0xffff,
        rect.x + rect.width <= 0xffff ==> rect.right_edge() == rect.x + rect.width,
        rect.y + rect.height <= 0xffff ==> rect.bottom_edge() == rect.y + rect.height,
        rect.on_screen() <==> rect.x + rect.width <= 0xffff && rect.y + rect.height <= 0xffff,
{
}

} // verus!
