//! Isolation of rendered regions for terminals that reorder text.
//!
//! A terminal that runs the Unicode bidirectional algorithm over each row lets
//! the right-to-left runs of neighbouring panes merge across the border
//! between them, so that panes seem to swap sides. Wrapping the part of a row
//! that one region shows in a left-to-right isolate (LRI ... PDI) keeps each
//! region a layout unit of its own, while text inside it is still reordered
//! and shaped.
//!
//! The controls have no width. They are added behind the symbols of cells that
//! are emitted anyway, so geometry and styles stay as they are.

use crate::buffer::{Buffer, BufferView, Cell, CellDiffOption, CellView};
use crate::geometry::{greater, Rect};
use vstd::prelude::*;

verus! {

/// LEFT-TO-RIGHT ISOLATE: opens a left-to-right isolate.
pub const LRI: char = '\u{2066}';

/// POP DIRECTIONAL ISOLATE: closes the innermost open isolate.
pub const PDI: char = '\u{2069}';

// ---------------------------------------------------------------------------
// Which region shows in which part of a row
// ---------------------------------------------------------------------------

/// The region that shows at column `x` and row `y`: the last one painted there.
pub open spec fn owner_at(regions: Seq<Rect>, x: int, y: int) -> Option<int>
    decreases regions.len(),
{
    if regions.len() == 0 {
        None
    } else if regions.last().covers(x, y) {
        Some(regions.len() - 1)
    } else {
        owner_at(regions.drop_last(), x, y)
    }
}

/// A stretch of columns of one row, `start` up to but without `end`, that one
/// region shows in.
pub struct Run {
    pub start: int,
    pub end: int,
    pub owner: int,
}

/// `runs` with the columns `start` up to `end` of `owner` behind it, joined to
/// the last run when they continue it.
pub open spec fn extend_runs(runs: Seq<Run>, start: int, end: int, owner: int) -> Seq<Run> {
    if runs.len() > 0 && runs.last().end == start && runs.last().owner == owner {
        runs.drop_last().push(Run { start: runs.last().start, end, owner })
    } else {
        runs.push(Run { start, end, owner })
    }
}

/// The longest stretches of row `y`, from column `lo` up to `hi`, that show one
/// region, from left to right.
pub open spec fn owned_runs(regions: Seq<Rect>, y: int, lo: int, hi: int) -> Seq<Run>
    decreases hi - lo,
{
    if hi <= lo {
        Seq::empty()
    } else {
        let before = owned_runs(regions, y, lo, hi - 1);
        match owner_at(regions, hi - 1, y) {
            None => before,
            Some(owner) => extend_runs(before, hi - 1, hi, owner),
        }
    }
}

/// Columns that no region shows in add nothing.
proof fn lemma_runs_over_gap(regions: Seq<Rect>, y: int, lo: int, mid: int, hi: int)
    requires
        lo <= mid <= hi,
        forall|x: int| mid <= x < hi ==> owner_at(regions, x, y) is None,
    ensures
        owned_runs(regions, y, lo, hi) == owned_runs(regions, y, lo, mid),
    decreases hi - mid,
{
    if mid < hi {
        lemma_runs_over_gap(regions, y, lo, mid, hi - 1);
        assert(owner_at(regions, hi - 1, y) is None);
    }
}

/// Columns that one region shows in extend the runs by one stretch.
proof fn lemma_runs_over_stretch(
    regions: Seq<Rect>,
    y: int,
    lo: int,
    mid: int,
    hi: int,
    owner: int,
)
    requires
        lo <= mid < hi,
        forall|x: int| mid <= x < hi ==> owner_at(regions, x, y) == Some(owner),
    ensures
        owned_runs(regions, y, lo, hi) == extend_runs(
            owned_runs(regions, y, lo, mid),
            mid,
            hi,
            owner,
        ),
    decreases hi - mid,
{
    assert(owner_at(regions, hi - 1, y) == Some(owner));
    if mid < hi - 1 {
        lemma_runs_over_stretch(regions, y, lo, mid, hi - 1, owner);
        let before = owned_runs(regions, y, lo, mid);
        assert(extend_runs(extend_runs(before, mid, hi - 1, owner), hi - 1, hi, owner)
            =~= extend_runs(before, mid, hi, owner));
    }
}

/// The numbers are in strictly rising order.
pub open spec fn rising(s: Seq<u16>) -> bool {
    forall|i: int, j: int| 0 <= i < j < s.len() ==> s[i] < s[j]
}

/// Adds `value` to a rising list unless it is there already.
fn insert_bound(bounds: &mut Vec<u16>, value: u16)
    requires
        rising(old(bounds)@),
    ensures
        rising(final(bounds)@),
        forall|z: u16| #[trigger]
            final(bounds)@.contains(z) <==> old(bounds)@.contains(z) || z == value,
{
    let mut at: usize = 0;
    while at < bounds.len() && bounds[at] < value
        invariant
            at <= bounds.len(),
            bounds@ == old(bounds)@,
            rising(bounds@),
            forall|i: int| 0 <= i < at ==> bounds@[i] < value,
        decreases bounds.len() - at,
    {
        at += 1;
    }
    if at < bounds.len() && bounds[at] == value {
        return ;
    }
    let ghost before = bounds@;
    bounds.insert(at, value);
    proof {
        assert(bounds@[at as int] == value);
        assert forall|z: u16| #[trigger] bounds@.contains(z) implies before.contains(z) || z
            == value by {
            let i = choose|i: int| 0 <= i < bounds@.len() && bounds@[i] == z;
            if i < at {
                assert(before[i] == z);
            } else if i > at {
                assert(before[i - 1] == z);
            }
        }
        assert forall|z: u16| before.contains(z) || z == value implies #[trigger] bounds@.contains(
            z,
        ) by {
            if before.contains(z) {
                let i = choose|i: int| 0 <= i < before.len() && before[i] == z;
                if i < at {
                    assert(bounds@[i] == z);
                } else {
                    assert(bounds@[i + 1] == z);
                }
            }
        }
    }
}

/// Part of a row that one region shows in: its first column, the column behind
/// its last one, and the region's place in paint order.
pub type Segment = (u16, u16, usize);

/// The runs that a list of segments stands for.
pub open spec fn as_runs(segments: Seq<Segment>) -> Seq<Run> {
    segments.map_values(
        |segment: Segment|
            Run { start: segment.0 as int, end: segment.1 as int, owner: segment.2 as int },
    )
}

/// First column of `region` that lies in `area`.
spec fn clipped_left(region: Rect, area: Rect) -> int {
    greater(region.x as int, area.x as int)
}

/// Column behind the last one of `region` that lies in `area`.
spec fn clipped_right(region: Rect, area: Rect) -> int {
    if region.right_edge() < area.right_edge() {
        region.right_edge()
    } else {
        area.right_edge()
    }
}

/// `region` has columns of `area` in row `y`.
spec fn in_row(region: Rect, area: Rect, y: int) -> bool {
    &&& clipped_left(region, area) < clipped_right(region, area)
    &&& region.y <= y < region.bottom_edge()
}

/// The columns of `area` that `region` takes in row `y`, if any.
fn row_span(region: &Rect, area: Rect, y: u16) -> (span: Option<(u16, u16)>)
    ensures
        match span {
            Some((left, right)) => {
                &&& in_row(*region, area, y as int)
                &&& left == clipped_left(*region, area)
                &&& right == clipped_right(*region, area)
            },
            None => !in_row(*region, area, y as int),
        },
{
    let left = if region.left() > area.left() {
        region.left()
    } else {
        area.left()
    };
    let right = if region.right() < area.right() {
        region.right()
    } else {
        area.right()
    };
    if left < right && region.top() <= y && y < region.bottom() {
        Some((left, right))
    } else {
        None
    }
}

/// Every edge of a region in row `y` is among `bounds`, and no bound lies
/// outside `area`.
spec fn bounds_of(bounds: Seq<u16>, regions: Seq<Rect>, area: Rect, y: int) -> bool {
    &&& rising(bounds)
    &&& forall|i: int| 0 <= i < bounds.len() ==> area.x <= #[trigger] bounds[i] <= area.right_edge()
    &&& forall|k: int|
        0 <= k < regions.len() && in_row(#[trigger] regions[k], area, y) ==> {
            &&& bounds.contains(clipped_left(regions[k], area) as u16)
            &&& bounds.contains(clipped_right(regions[k], area) as u16)
        }
}

/// Collects the edges of all regions in row `y`, in rising order.
fn row_bounds(regions: &[Rect], area: Rect, y: u16) -> (bounds: Vec<u16>)
    ensures
        bounds_of(bounds@, regions@, area, y as int),
{
    let mut bounds: Vec<u16> = Vec::new();
    let mut k: usize = 0;
    while k < regions.len()
        invariant
            k <= regions.len(),
            bounds_of(bounds@, regions@.take(k as int), area, y as int),
        decreases regions.len() - k,
    {
        let ghost before = bounds@;
        let region = &regions[k];
        if let Some((left, right)) = row_span(region, area, y) {
            insert_bound(&mut bounds, left);
            let ghost between = bounds@;
            insert_bound(&mut bounds, right);
            proof {
                assert forall|i: int| 0 <= i < bounds@.len() implies area.x <= #[trigger] bounds@[i]
                    <= area.right_edge() by {
                    let z = bounds@[i];
                    assert(bounds@.contains(z));
                    if z != left && z != right {
                        assert(between.contains(z));
                        assert(before.contains(z));
                        let j = choose|j: int| 0 <= j < before.len() && before[j] == z;
                        assert(area.x <= before[j] <= area.right_edge());
                    }
                }
                assert(bounds@.contains(left) && bounds@.contains(right)) by {
                    assert(between.contains(left));
                }
                assert(forall|z: u16| before.contains(z) ==> #[trigger] bounds@.contains(z)) by {
                    assert(forall|z: u16| before.contains(z) ==> #[trigger] between.contains(z));
                }
            }
        }
        proof {
            let (now, next) = (regions@.take(k as int), regions@.take(k + 1));
            assert forall|j: int| 0 <= j < next.len() && in_row(#[trigger] next[j], area, y as int)
                implies {
                &&& bounds@.contains(clipped_left(next[j], area) as u16)
                &&& bounds@.contains(clipped_right(next[j], area) as u16)
            } by {
                if j < k {
                    assert(now[j] == next[j]);
                }
            }
        }
        k += 1;
    }
    assert(regions@.take(regions@.len() as int) =~= regions@);
    bounds
}

/// The last region painted over all the columns `start` up to `end` of row
/// `y`, where no edge of a region lies between those two columns.
fn topmost_region(regions: &[Rect], area: Rect, y: u16, start: u16, end: u16) -> (owner: Option<
    usize,
>)
    requires
        area.x <= start < end <= area.right_edge(),
        forall|k: int|
            0 <= k < regions@.len() && in_row(#[trigger] regions@[k], area, y as int) ==> {
                &&& clipped_left(regions@[k], area) <= start || end <= clipped_left(
                    regions@[k],
                    area,
                )
                &&& clipped_right(regions@[k], area) <= start || end <= clipped_right(
                    regions@[k],
                    area,
                )
            },
    ensures
        forall|x: int|
            start <= x < end ==> #[trigger] owner_at(regions@, x, y as int) == match owner {
                Some(k) => Some(k as int),
                None => None,
            },
{
    let mut k: usize = regions.len();
    assert(regions@.take(k as int) =~= regions@);
    while k > 0
        invariant
            k <= regions.len(),
            area.x <= start < end <= area.right_edge(),
            forall|k: int|
                0 <= k < regions@.len() && in_row(#[trigger] regions@[k], area, y as int) ==> {
                    &&& clipped_left(regions@[k], area) <= start || end <= clipped_left(
                        regions@[k],
                        area,
                    )
                    &&& clipped_right(regions@[k], area) <= start || end <= clipped_right(
                        regions@[k],
                        area,
                    )
                },
            forall|x: int|
                start <= x < end ==> #[trigger] owner_at(regions@, x, y as int) == owner_at(
                    regions@.take(k as int),
                    x,
                    y as int,
                ),
        decreases k,
    {
        let ghost upper = regions@.take(k as int);
        k -= 1;
        let region = &regions[k];
        assert(upper.last() == *region);
        assert(upper.drop_last() =~= regions@.take(k as int));
        if let Some((left, right)) = row_span(region, area, y) {
            if left <= start && end <= right {
                return Some(k);
            }
        }
        assert forall|x: int| start <= x < end implies !region.covers(x, y as int) by {
            assert(in_row(regions@[k as int], area, y as int) || !region.covers(x, y as int));
        }
    }
    None
}

/// The parts of row `y` that each show one region, from left to right: the
/// regions overlap in paint order, and neighbouring parts of one region are
/// joined, so that an edge hidden beneath a region does not split it.
pub fn row_segments(regions: &[Rect], area: Rect, y: u16) -> (segments: Vec<Segment>)
    ensures
        as_runs(segments@) == owned_runs(
            regions@,
            y as int,
            area.x as int,
            area.right_edge(),
        ),
{
    let bounds = row_bounds(regions, area, y);
    let mut segments: Vec<Segment> = Vec::new();
    let ghost (row, lo, hi) = (y as int, area.x as int, area.right_edge());
    let ghost all = regions@;
    proof {
        assert forall|x: int|
            #![trigger owner_at(all, x, row)]
            lo <= x < hi && (bounds@.len() == 0 || x < bounds@[0] || bounds@.last()
                <= x) implies owner_at(all, x, row) is None by {
            lemma_outside_bounds(bounds@, all, area, row, x);
        }
    }
    if bounds.len() == 0 {
        proof {
            lemma_runs_over_gap(all, row, lo, lo, hi);
        }
        assert(as_runs(segments@) =~= Seq::empty());
        return segments;
    }
    proof {
        lemma_runs_over_gap(all, row, lo, lo, bounds@[0] as int);
        assert(as_runs(segments@) =~= Seq::empty());
    }
    let mut i: usize = 1;
    while i < bounds.len()
        invariant
            1 <= i <= bounds.len(),
            bounds_of(bounds@, regions@, area, y as int),
            row == y,
            lo == area.x,
            hi == area.right_edge(),
            all == regions@,
            as_runs(segments@) == owned_runs(all, row, lo, bounds@[i - 1] as int),
        decreases bounds.len() - i,
    {
        let start = bounds[i - 1];
        let end = bounds[i];
        proof {
            assert(start < end);
            assert forall|z: u16| bounds@.contains(z) implies z <= start || end <= z by {
                let j = choose|j: int| 0 <= j < bounds@.len() && bounds@[j] == z;
                assert(j <= i - 1 || i <= j);
            }
        }
        let ghost before = as_runs(segments@);
        match topmost_region(regions, area, y, start, end) {
            None => {
                proof {
                    lemma_runs_over_gap(all, row, lo, start as int, end as int);
                }
            },
            Some(owner) => {
                proof {
                    lemma_runs_over_stretch(
                        all,
                        row,
                        lo,
                        start as int,
                        end as int,
                        owner as int,
                    );
                }
                let count = segments.len();
                if count > 0 && segments[count - 1].1 == start && segments[count - 1].2 == owner {
                    let first = segments[count - 1].0;
                    segments[count - 1] = (first, end, owner);
                } else {
                    segments.push((start, end, owner));
                }
                assert(as_runs(segments@) =~= extend_runs(
                    before,
                    start as int,
                    end as int,
                    owner as int,
                ));
            },
        }
        i += 1;
    }
    proof {
        lemma_runs_over_gap(all, row, lo, bounds@.last() as int, hi);
    }
    segments
}

/// No region shows to the left of all edges or to the right of them.
proof fn lemma_outside_bounds(bounds: Seq<u16>, regions: Seq<Rect>, area: Rect, y: int, x: int)
    requires
        bounds_of(bounds, regions, area, y),
        area.x <= x < area.right_edge(),
        bounds.len() == 0 || x < bounds[0] || bounds.last() <= x,
    ensures
        owner_at(regions, x, y) is None,
    decreases regions.len(),
{
    if regions.len() > 0 {
        let region = regions.last();
        if region.covers(x, y) {
            assert(in_row(regions[regions.len() - 1], area, y));
            let (left, right) = (
                clipped_left(region, area) as u16,
                clipped_right(region, area) as u16,
            );
            let i = choose|i: int| 0 <= i < bounds.len() && bounds[i] == left;
            let j = choose|j: int| 0 <= j < bounds.len() && bounds[j] == right;
            assert(bounds[0] <= bounds[i] && bounds[j] <= bounds[bounds.len() - 1]);
        }
        let rest = regions.drop_last();
        assert forall|k: int| 0 <= k < rest.len() && in_row(#[trigger] rest[k], area, y) implies {
            &&& bounds.contains(clipped_left(rest[k], area) as u16)
            &&& bounds.contains(clipped_right(rest[k], area) as u16)
        } by {
            assert(rest[k] == regions[k]);
        }
        lemma_outside_bounds(bounds, rest, area, y, x);
    }
}

// ---------------------------------------------------------------------------
// Which cells of a row can host a control
// ---------------------------------------------------------------------------

/// The number of columns that `CellWidth::cell_width` of ratatui gives for a
/// symbol.
pub uninterp spec fn symbol_columns(symbol: Seq<char>) -> u16;

/// The symbol is one ASCII control character and nothing else.
pub open spec fn lone_control(symbol: Seq<char>) -> bool {
    symbol.len() == 1 && ((symbol[0] as u32) < 0x20 || symbol[0] as u32 == 0x7f)
}

/// The symbol is one ASCII character and nothing else.
pub open spec fn lone_ascii(symbol: Seq<char>) -> bool {
    symbol.len() == 1 && (symbol[0] as u32) < 0x80
}

/// The character opens or closes an isolate.
pub open spec fn isolate_control(c: char) -> bool {
    c == LRI || c == PDI
}

/// `symbol` without the isolate controls behind it.
pub open spec fn without_controls(symbol: Seq<char>) -> Seq<char>
    decreases symbol.len(),
{
    if symbol.len() > 0 && isolate_control(symbol.last()) {
        without_controls(symbol.drop_last())
    } else {
        symbol
    }
}

/// The number of columns of a symbol: those of the symbol without the isolate
/// controls behind it, and one where that is a lone ASCII character.
pub open spec fn bare_columns(symbol: Seq<char>) -> u16 {
    let bare = without_controls(symbol);
    if lone_ascii(bare) {
        1
    } else {
        symbol_columns(bare)
    }
}

/// The number of columns that a symbol takes on the screen.
///
/// Calls `ratatui::buffer::CellWidth::cell_width` on a string. What is claimed:
/// the result is settled by the characters of the symbol alone; LRI and PDI at the
/// end of a symbol take no column and leave the width of what stands ahead of them
/// as it is, because the width is added up from the end and both have width zero
/// there; and a lone ASCII character takes one column. A lone control character is
/// left out, because debug builds of ratatui stop on it; with LRI or PDI behind it,
/// it takes one column as well.
#[verifier::external_body]
fn measure_symbol(symbol: &str) -> (columns: u16)
    requires
        !lone_control(symbol@),
    ensures
        columns == symbol_columns(symbol@),
        columns == bare_columns(symbol@),
{
    ratatui::buffer::CellWidth::cell_width(symbol)
}

/// The number of columns that a cell takes on the screen: the width forced on
/// it, else that of its symbol. Isolate controls behind the symbol take none.
pub open spec fn cell_columns(cell: CellView) -> u16 {
    match cell.diff_option {
        CellDiffOption::ForcedWidth(columns) => columns,
        _ => bare_columns(cell.symbol),
    }
}

/// The cell holds one ASCII character, and no width is forced on it.
pub open spec fn ascii_cell(cell: CellView) -> bool {
    !(cell.diff_option is ForcedWidth) && lone_ascii(cell.symbol)
}

/// The number of columns that a cell takes on the screen. A lone ASCII character
/// takes one.
pub fn cell_width(cell: &Cell) -> (columns: u16)
    ensures
        columns == cell_columns(cell@),
        ascii_cell(cell@) ==> columns == 1,
{
    match cell.diff_option {
        CellDiffOption::ForcedWidth(columns) => columns,
        _ => {
            let symbol = cell.symbol.as_str();
            if symbol.unicode_len() == 1 {
                let only = symbol.get_char(0);
                if only < ' ' || only == '\u{7f}' {
                    return 1;
                }
            }
            measure_symbol(symbol)
        },
    }
}

/// The number of columns of a row, from the left edge of `area` to its right
/// edge.
pub open spec fn row_length(area: Rect) -> nat {
    (area.right_edge() - area.x) as nat
}

/// The widths of the cells of row `y`, from left to right.
pub open spec fn measured_row(buf: BufferView, y: int) -> Seq<u16> {
    Seq::new(row_length(buf.area), |i: int| cell_columns(buf.at(buf.area.x + i, y)))
}

/// None of the first `count` cells of a row reaches beyond column `i`. Each cell
/// covers as many columns as it is wide, and at least its own.
pub open spec fn reaches_up_to(widths: Seq<u16>, count: int, i: int) -> bool {
    forall|j: int| 0 <= j < count ==> j + greater(#[trigger] widths[j] as int, 1) <= i
}

/// Column `i` of a row does not lie beneath a cell to its left.
pub open spec fn uncovered(widths: Seq<u16>, i: int) -> bool {
    reaches_up_to(widths, i, i)
}

/// The cells of row `y` that are emitted, from left to right, where `widths`
/// are the widths of its cells: those with a symbol, not skipped and not
/// beneath a wider cell to their left.
pub open spec fn hostable_row(buf: BufferView, y: int, widths: Seq<u16>) -> Seq<bool> {
    Seq::new(
        row_length(buf.area),
        |i: int|
            {
                let cell = buf.at(buf.area.x + i, y);
                uncovered(widths, i) && !cell.skipped() && cell.symbol.len() > 0
            },
    )
}

/// Every cell of row `y` holds one ASCII character and no forced width.
pub open spec fn ascii_row(buf: BufferView, y: int) -> bool {
    forall|i: int| 0 <= i < row_length(buf.area) ==> ascii_cell(#[trigger] buf.at(buf.area.x + i, y))
}

/// The cells of row `y` that are not skipped, from left to right.
pub open spec fn unskipped_row(buf: BufferView, y: int) -> Seq<bool> {
    Seq::new(row_length(buf.area), |i: int| !buf.at(buf.area.x + i, y).skipped())
}

/// In a row of ASCII every cell is one column wide, so that all its cells are
/// emitted but those that are skipped.
pub proof fn law_ascii_row_is_emitted(buf: BufferView, y: int)
    requires
        ascii_row(buf, y),
    ensures
        forall|i: int| 0 <= i < row_length(buf.area) ==> #[trigger] measured_row(buf, y)[i] == 1,
        hostable_row(buf, y, measured_row(buf, y)) == unskipped_row(buf, y),
{
    let widths = measured_row(buf, y);
    assert forall|i: int| 0 <= i < row_length(buf.area) implies #[trigger] widths[i] == 1 by {
        assert(ascii_cell(buf.at(buf.area.x + i, y)));
    }
    assert forall|i: int| 0 <= i < row_length(buf.area) implies #[trigger] hostable_row(
        buf,
        y,
        widths,
    )[i] == unskipped_row(buf, y)[i] by {
        assert(ascii_cell(buf.at(buf.area.x + i, y)));
        assert(uncovered(widths, i));
    }
    assert(hostable_row(buf, y, widths) =~= unskipped_row(buf, y));
}

/// Measures the cells of row `y`.
pub fn measure_row(buf: &Buffer, y: u16) -> (widths: Vec<u16>)
    requires
        buf@.well_formed(),
        buf.area.y <= y < buf.area.y + buf.area.height,
    ensures
        widths@ == measured_row(buf@, y as int),
        forall|i: int|
            0 <= i < row_length(buf.area) && ascii_cell(buf@.at(buf.area.x + i, y as int))
                ==> #[trigger] widths@[i] == 1,
{
    let mut widths: Vec<u16> = Vec::new();
    let right = buf.area.right();
    let mut x: u16 = buf.area.left();
    while x < right
        invariant
            buf.area.x <= x <= right,
            right == buf.area.right_edge(),
            buf@.well_formed(),
            buf.area.y <= y < buf.area.y + buf.area.height,
            widths@ =~= measured_row(buf@, y as int).take(x - buf.area.x),
        decreases right - x,
    {
        widths.push(cell_width(buf.cell(x, y)));
        x += 1;
    }
    assert(widths@ =~= measured_row(buf@, y as int));
    widths
}

/// Finds the cells of row `y` that are emitted, given the widths of its cells.
pub fn hostable_columns(buf: &Buffer, y: u16, widths: &Vec<u16>, hostable: &mut Vec<bool>)
    requires
        buf@.well_formed(),
        buf.area.y <= y < buf.area.y + buf.area.height,
        widths@.len() == row_length(buf.area),
    ensures
        final(hostable)@ == hostable_row(buf@, y as int, widths@),
{
    hostable.clear();
    let left = buf.area.left();
    let right = buf.area.right();
    let mut covered_until: u16 = left;
    let mut x: u16 = left;
    while x < right
        invariant
            left == buf.area.x,
            left <= x <= right,
            right == buf.area.right_edge(),
            buf@.well_formed(),
            buf.area.y <= y < buf.area.y + buf.area.height,
            widths@.len() == row_length(buf.area),
            hostable@ =~= hostable_row(buf@, y as int, widths@).take(x - left),
            forall|i: int|
                0 <= i < right - left ==> (covered_until <= left + i <==> #[trigger] reaches_up_to(
                    widths@,
                    x - left,
                    i,
                )),
        decreases right - x,
    {
        let cell = buf.cell(x, y);
        let ghost here = x - left;
        assert(uncovered(widths@, here) == reaches_up_to(widths@, here, here));
        hostable.push(x >= covered_until && !cell.is_skipped() && !cell.symbol.as_str().is_empty());
        let width = widths[(x - left) as usize];
        let columns = if width > 1 {
            width
        } else {
            1
        };
        let reach = x.saturating_add(columns);
        let ghost before = covered_until;
        if reach > covered_until {
            covered_until = reach;
        }
        proof {
            assert forall|i: int| 0 <= i < right - left implies (covered_until <= left + i
                <==> #[trigger] reaches_up_to(widths@, here + 1, i)) by {
                assert(before <= left + i <==> reaches_up_to(widths@, here, i));
                lemma_reaches_next(widths@, here, i);
            }
        }
        x += 1;
    }
    assert(hostable@ =~= hostable_row(buf@, y as int, widths@));
}

/// One cell more.
proof fn lemma_reaches_next(widths: Seq<u16>, count: int, i: int)
    requires
        0 <= count < widths.len(),
    ensures
        reaches_up_to(widths, count + 1, i) <==> reaches_up_to(widths, count, i) && count + greater(
            widths[count] as int,
            1,
        ) <= i,
{
    if reaches_up_to(widths, count + 1, i) {
        assert(count + greater(widths[count] as int, 1) <= i);
    }
}

/// Finds the cells of row `y` that are emitted.
///
/// A wide symbol leaves ordinary spaces in the columns behind it, so a cell
/// alone does not show that it lies beneath one: the columns that each cell
/// covers are tracked along the row.
pub fn fill_row_hostable(buf: &Buffer, y: u16, hostable: &mut Vec<bool>)
    requires
        buf@.well_formed(),
        buf.area.y <= y < buf.area.y + buf.area.height,
    ensures
        final(hostable)@ == hostable_row(buf@, y as int, measured_row(buf@, y as int)),
        ascii_row(buf@, y as int) ==> final(hostable)@ == unskipped_row(buf@, y as int),
{
    let widths = measure_row(buf, y);
    hostable_columns(buf, y, &widths, hostable);
    proof {
        if ascii_row(buf@, y as int) {
            law_ascii_row_is_emitted(buf@, y as int);
        }
    }
}

// ---------------------------------------------------------------------------
// Where the controls go
// ---------------------------------------------------------------------------

/// The cell at column `x` of a row that begins at column `left` is emitted.
pub open spec fn hosts(hostable: Seq<bool>, left: int, x: int) -> bool {
    0 <= x - left < hostable.len() && hostable[x - left]
}

/// The last emitted cell from column `lo` up to `hi`.
pub open spec fn last_host(hostable: Seq<bool>, left: int, lo: int, hi: int) -> Option<int>
    decreases hi - lo,
{
    if hi <= lo {
        None
    } else if hosts(hostable, left, hi - 1) {
        Some(hi - 1)
    } else {
        last_host(hostable, left, lo, hi - 1)
    }
}

/// The first emitted cell from column `lo` up to `hi`.
pub open spec fn first_host(hostable: Seq<bool>, left: int, lo: int, hi: int) -> Option<int>
    decreases hi - lo,
{
    if hi <= lo {
        None
    } else if hosts(hostable, left, lo) {
        Some(lo)
    } else {
        first_host(hostable, left, lo + 1, hi)
    }
}

/// The cell that takes the LRI of a segment that begins at column `start` and
/// whose PDI goes to `pdi`: the closest emitted cell to the left of the segment,
/// or the first emitted cell inside it when there is none.
pub open spec fn lri_host(hostable: Seq<bool>, left: int, start: int, pdi: int) -> int {
    match last_host(hostable, left, left, start) {
        Some(x) => x,
        None => first_host(hostable, left, start, pdi + 1).unwrap_or(pdi),
    }
}

/// The controls that a segment from column `start` up to `end` adds to the cell
/// at column `x`. A segment without an emitted cell adds none.
pub open spec fn segment_controls(
    hostable: Seq<bool>,
    left: int,
    start: int,
    end: int,
    x: int,
) -> Seq<char> {
    match last_host(hostable, left, start, end) {
        None => Seq::empty(),
        Some(pdi) => {
            let opening = if x == lri_host(hostable, left, start, pdi) {
                seq![LRI]
            } else {
                Seq::empty()
            };
            let closing = if x == pdi {
                seq![PDI]
            } else {
                Seq::empty()
            };
            opening + closing
        },
    }
}

/// The controls that all of `runs`, in their order, add to the cell at column
/// `x`.
pub open spec fn row_controls(hostable: Seq<bool>, left: int, runs: Seq<Run>, x: int) -> Seq<char>
    decreases runs.len(),
{
    if runs.len() == 0 {
        Seq::empty()
    } else {
        row_controls(hostable, left, runs.drop_last(), x) + segment_controls(
            hostable,
            left,
            runs.last().start,
            runs.last().end,
            x,
        )
    }
}

/// What the last emitted cell of a stretch is.
pub proof fn lemma_last_host(hostable: Seq<bool>, left: int, lo: int, hi: int)
    ensures
        match last_host(hostable, left, lo, hi) {
            Some(x) => {
                &&& lo <= x < hi
                &&& hosts(hostable, left, x)
                &&& forall|z: int| x < z < hi ==> !hosts(hostable, left, z)
            },
            None => forall|z: int| lo <= z < hi ==> !hosts(hostable, left, z),
        },
    decreases hi - lo,
{
    if lo < hi {
        lemma_last_host(hostable, left, lo, hi - 1);
    }
}

/// What the first emitted cell of a stretch is.
pub proof fn lemma_first_host(hostable: Seq<bool>, left: int, lo: int, hi: int)
    ensures
        match first_host(hostable, left, lo, hi) {
            Some(x) => {
                &&& lo <= x < hi
                &&& hosts(hostable, left, x)
                &&& forall|z: int| lo <= z < x ==> !hosts(hostable, left, z)
            },
            None => forall|z: int| lo <= z < hi ==> !hosts(hostable, left, z),
        },
    decreases hi - lo,
{
    if lo < hi {
        lemma_first_host(hostable, left, lo + 1, hi);
    }
}

/// Finds the last emitted cell from column `lo` up to `hi`.
fn find_last_host(hostable: &[bool], left: u16, lo: u16, hi: u16) -> (host: Option<u16>)
    requires
        left <= lo,
        hi - left <= hostable@.len(),
    ensures
        match host {
            Some(x) => last_host(hostable@, left as int, lo as int, hi as int) == Some(x as int),
            None => last_host(hostable@, left as int, lo as int, hi as int) is None,
        },
{
    let mut x: u16 = hi;
    while x > lo
        invariant
            left <= lo,
            x <= hi,
            hi - left <= hostable@.len(),
            last_host(hostable@, left as int, lo as int, hi as int) == last_host(
                hostable@,
                left as int,
                lo as int,
                x as int,
            ),
        decreases x,
    {
        x -= 1;
        if hostable[(x - left) as usize] {
            return Some(x);
        }
    }
    None
}

/// Finds the first emitted cell from column `lo` up to `hi`.
fn find_first_host(hostable: &[bool], left: u16, lo: u16, hi: u16) -> (host: Option<u16>)
    requires
        left <= lo,
        hi - left <= hostable@.len(),
    ensures
        match host {
            Some(x) => first_host(hostable@, left as int, lo as int, hi as int) == Some(x as int),
            None => first_host(hostable@, left as int, lo as int, hi as int) is None,
        },
{
    let mut x: u16 = lo;
    while x < hi
        invariant
            left <= lo <= x,
            hi - left <= hostable@.len(),
            first_host(hostable@, left as int, lo as int, hi as int) == first_host(
                hostable@,
                left as int,
                x as int,
                hi as int,
            ),
        decreases hi - x,
    {
        if hostable[(x - left) as usize] {
            return Some(x);
        }
        x += 1;
    }
    None
}

/// Adds one LRI and one PDI around the columns `start` up to `end` of row `y`,
/// or nothing when none of these cells is emitted.
pub fn wrap_segment(buf: &mut Buffer, y: u16, hostable: &[bool], start: u16, end: u16)
    requires
        old(buf)@.well_formed(),
        old(buf).area.y <= y < old(buf).area.y + old(buf).area.height,
        hostable@.len() == row_length(old(buf).area),
        old(buf).area.x <= start <= end <= old(buf).area.right_edge(),
    ensures
        final(buf)@.area == old(buf)@.area,
        final(buf)@.well_formed(),
        forall|c: int, r: int|
            old(buf)@.has(c, r) ==> #[trigger] final(buf)@.at(c, r) == (if r == y {
                old(buf)@.at(c, r).with_controls(
                    segment_controls(
                        hostable@,
                        old(buf).area.x as int,
                        start as int,
                        end as int,
                        c,
                    ),
                )
            } else {
                old(buf)@.at(c, r)
            }),
{
    let left = buf.area.left();
    let ghost (host, edge) = (hostable@, left as int);
    let ghost before = buf@;
    let pdi = match find_last_host(hostable, left, start, end) {
        Some(x) => x,
        None => {
            proof {
                assert forall|c: int, r: int| before.has(c, r) implies #[trigger] before.at(c, r)
                    == before.at(c, r).with_controls(Seq::empty()) by {
                    assert(before.at(c, r).symbol + Seq::<char>::empty()
                        =~= before.at(c, r).symbol);
                }
            }
            return ;
        },
    };
    proof {
        lemma_last_host(host, edge, start as int, end as int);
        lemma_last_host(host, edge, edge, start as int);
        lemma_first_host(host, edge, start as int, pdi + 1);
    }
    let lri = match find_last_host(hostable, left, left, start) {
        Some(x) => x,
        None => match find_first_host(hostable, left, start, pdi + 1) {
            Some(x) => x,
            None => pdi,
        },
    };
    buf.append_symbol(lri, y, LRI);
    let ghost between = buf@;
    buf.append_symbol(pdi, y, PDI);
    proof {
        let after = buf@;
        assert forall|c: int, r: int| before.has(c, r) implies #[trigger] after.at(c, r) == (if r
            == y {
            before.at(c, r).with_controls(
                segment_controls(host, edge, start as int, end as int, c),
            )
        } else {
            before.at(c, r)
        }) by {
            let added = segment_controls(host, edge, start as int, end as int, c);
            assert(between.has(c, r));
            assert(between.at(c, r) == if c == lri && r == y {
                before.at(c, r).with_controls(seq![LRI])
            } else {
                before.at(c, r)
            });
            assert(after.at(c, r) == if c == pdi && r == y {
                between.at(c, r).with_controls(seq![PDI])
            } else {
                between.at(c, r)
            });
            if r == y {
                assert(after.at(c, r).symbol =~= before.at(c, r).symbol + added);
            }
        }
    }
}

/// The runs are not empty, lie between columns `lo` and `hi`, and each begins
/// where the one before it ends or to the right of that.
pub open spec fn in_order(runs: Seq<Run>, lo: int, hi: int) -> bool {
    &&& forall|i: int| 0 <= i < runs.len() ==> lo <= #[trigger] runs[i].start < runs[i].end <= hi
    &&& forall|i: int, j: int|
        0 <= i < j < runs.len() ==> (#[trigger] runs[i]).end <= (#[trigger] runs[j]).start
}

/// The parts of a row come in order.
pub proof fn lemma_runs_in_order(regions: Seq<Rect>, y: int, lo: int, hi: int)
    requires
        lo <= hi,
    ensures
        in_order(owned_runs(regions, y, lo, hi), lo, hi),
    decreases hi - lo,
{
    if lo < hi {
        lemma_runs_in_order(regions, y, lo, hi - 1);
    }
}

/// Wraps each segment of row `y` in an isolate, one after the other.
pub fn wrap_segments(buf: &mut Buffer, y: u16, hostable: &[bool], segments: &[Segment])
    requires
        old(buf)@.well_formed(),
        old(buf).area.y <= y < old(buf).area.y + old(buf).area.height,
        hostable@.len() == row_length(old(buf).area),
        in_order(as_runs(segments@), old(buf).area.x as int, old(buf).area.right_edge()),
    ensures
        final(buf)@.area == old(buf)@.area,
        final(buf)@.well_formed(),
        forall|c: int, r: int|
            old(buf)@.has(c, r) ==> #[trigger] final(buf)@.at(c, r) == (if r == y {
                old(buf)@.at(c, r).with_controls(
                    row_controls(hostable@, old(buf).area.x as int, as_runs(segments@), c),
                )
            } else {
                old(buf)@.at(c, r)
            }),
{
    let ghost before = buf@;
    let ghost (host, edge, runs) = (hostable@, buf.area.x as int, as_runs(segments@));
    assert forall|c: int, r: int| before.has(c, r) implies #[trigger] before.at(c, r) == before.at(
        c,
        r,
    ).with_controls(row_controls(host, edge, runs.take(0), c)) by {
        assert(before.at(c, r).symbol + Seq::<char>::empty() =~= before.at(c, r).symbol);
    }
    let mut i: usize = 0;
    while i < segments.len()
        invariant
            i <= segments.len(),
            before == old(buf)@,
            host == hostable@,
            edge == before.area.x,
            runs == as_runs(segments@),
            in_order(runs, edge, before.area.right_edge()),
            before.area.y <= y < before.area.y + before.area.height,
            host.len() == row_length(before.area),
            buf@.area == before.area,
            buf@.well_formed(),
            forall|c: int, r: int|
                before.has(c, r) ==> #[trigger] buf@.at(c, r) == (if r == y {
                    before.at(c, r).with_controls(row_controls(host, edge, runs.take(i as int), c))
                } else {
                    before.at(c, r)
                }),
        decreases segments.len() - i,
    {
        let ghost between = buf@;
        let (start, end) = (segments[i].0, segments[i].1);
        assert(runs[i as int].start == start && runs[i as int].end == end);
        wrap_segment(buf, y, hostable, start, end);
        proof {
            let (now, next) = (runs.take(i as int), runs.take(i + 1));
            assert(next.drop_last() =~= now);
            assert(next.last() == runs[i as int]);
            assert forall|c: int, r: int| before.has(c, r) implies #[trigger] buf@.at(c, r) == (
            if r == y {
                before.at(c, r).with_controls(row_controls(host, edge, next, c))
            } else {
                before.at(c, r)
            }) by {
                assert(between.has(c, r));
                assert(between.at(c, r) == if r == y {
                    before.at(c, r).with_controls(row_controls(host, edge, now, c))
                } else {
                    before.at(c, r)
                });
                if r == y {
                    assert(buf@.at(c, r).symbol =~= before.at(c, r).symbol + row_controls(
                        host,
                        edge,
                        next,
                        c,
                    ));
                }
            }
        }
        i += 1;
    }
    assert(runs.take(runs.len() as int) =~= runs);
}

/// The controls that the cell at column `x` and row `y` of a frame is given,
/// when `regions` were painted into it in this order.
pub open spec fn frame_controls(buf: BufferView, regions: Seq<Rect>, x: int, y: int) -> Seq<char> {
    row_controls(
        hostable_row(buf, y, measured_row(buf, y)),
        buf.area.x as int,
        owned_runs(regions, y, buf.area.x as int, buf.area.right_edge()),
        x,
    )
}

/// Wraps every part of a row that shows one region in an isolate of its own.
///
/// `regions` are the rectangles that were painted, from back to front. Where
/// they overlap, the last one owns the cells, and neighbouring parts of one
/// owner are one part: an edge hidden beneath a region does not split it.
///
/// * LRI goes to the closest emitted cell to the left of a part (mostly the
///   border of the region), or to the first emitted cell inside it when there is
///   none to its left.
/// * PDI goes to the last emitted cell of the part.
pub fn isolate_regions(buf: &mut Buffer, regions: &[Rect])
    requires
        old(buf)@.well_formed(),
    ensures
        final(buf)@.area == old(buf)@.area,
        final(buf)@.well_formed(),
        forall|x: int, y: int|
            old(buf)@.has(x, y) ==> #[trigger] final(buf)@.at(x, y) == old(buf)@.at(
                x,
                y,
            ).with_controls(frame_controls(old(buf)@, regions@, x, y)),
        forall|x: int, y: int|
            old(buf)@.has(x, y) && ascii_row(old(buf)@, y) ==> #[trigger] final(buf)@.at(x, y)
                == old(buf)@.at(x, y).with_controls(
                row_controls(
                    unskipped_row(old(buf)@, y),
                    old(buf).area.x as int,
                    owned_runs(
                        regions@,
                        y,
                        old(buf).area.x as int,
                        old(buf)@.area.right_edge(),
                    ),
                    x,
                ),
            ),
{
    let ghost before = buf@;
    let ghost (lo, hi) = (buf.area.x as int, buf.area.right_edge());
    let mut hostable: Vec<bool> = Vec::new();
    let bottom = buf.area.bottom();
    let mut y: u16 = buf.area.top();
    while y < bottom
        invariant
            before == old(buf)@,
            before.well_formed(),
            buf@.area == before.area,
            buf@.well_formed(),
            bottom == before.area.bottom_edge(),
            before.area.y <= y <= bottom,
            lo == before.area.x,
            hi == before.area.right_edge(),
            forall|c: int, r: int|
                before.has(c, r) ==> #[trigger] buf@.at(c, r) == (if r < y {
                    before.at(c, r).with_controls(frame_controls(before, regions@, c, r))
                } else {
                    before.at(c, r)
                }),
        decreases bottom - y,
    {
        let ghost between = buf@;
        let segments = row_segments(regions, buf.area, y);
        proof {
            lemma_runs_in_order(regions@, y as int, lo, hi);
        }
        if segments.len() > 0 {
            fill_row_hostable(buf, y, &mut hostable);
            proof {
                let row = y as int;
                assert forall|i: int| 0 <= i < row_length(before.area) implies #[trigger] between.at(
                    lo + i,
                    row,
                ) == before.at(lo + i, row) by {
                    assert(before.has(lo + i, row));
                }
                assert(measured_row(between, row) =~= measured_row(before, row));
                assert(hostable_row(between, row, measured_row(before, row)) =~= hostable_row(
                    before,
                    row,
                    measured_row(before, row),
                ));
            }
            wrap_segments(buf, y, &hostable, &segments);
        }
        proof {
            assert forall|c: int, r: int| before.has(c, r) implies #[trigger] buf@.at(c, r) == (
            if r < y + 1 {
                before.at(c, r).with_controls(frame_controls(before, regions@, c, r))
            } else {
                before.at(c, r)
            }) by {
                assert(between.has(c, r));
                assert(between.at(c, r) == if r < y {
                    before.at(c, r).with_controls(frame_controls(before, regions@, c, r))
                } else {
                    before.at(c, r)
                });
                if r == y && segments.len() == 0 {
                    assert(as_runs(segments@) =~= Seq::empty());
                    assert(before.at(c, r).symbol + Seq::<char>::empty()
                        =~= before.at(c, r).symbol);
                }
            }
        }
        y += 1;
    }
    proof {
        assert forall|x: int, r: int| before.has(x, r) implies #[trigger] buf@.at(x, r)
            == before.at(x, r).with_controls(frame_controls(before, regions@, x, r)) by {
            if r >= bottom {
                lemma_no_owner_below(regions@, r, lo, hi);
                assert(before.at(x, r).symbol + Seq::<char>::empty() =~= before.at(x, r).symbol);
            }
        }
        assert forall|x: int, r: int|
            before.has(x, r) && ascii_row(before, r) implies #[trigger] buf@.at(x, r) == before.at(
            x,
            r,
        ).with_controls(
            row_controls(unskipped_row(before, r), lo, owned_runs(regions@, r, lo, hi), x),
        ) by {
            law_ascii_row_is_emitted(before, r);
        }
    }
}

/// No region reaches a row beyond the last screen coordinate.
proof fn lemma_no_owner_below(regions: Seq<Rect>, y: int, lo: int, hi: int)
    requires
        lo <= hi,
        y >= u16::MAX,
    ensures
        owned_runs(regions, y, lo, hi) == Seq::<Run>::empty(),
{
    assert forall|x: int| lo <= x < hi implies owner_at(regions, x, y) is None by {
        law_topmost_region_owns_the_cell(regions, x, y);
    }
    lemma_runs_over_gap(regions, y, lo, lo, hi);
}

/// A cell belongs to the last region painted over it, and to none when no
/// region covers it.
pub proof fn law_topmost_region_owns_the_cell(regions: Seq<Rect>, x: int, y: int)
    ensures
        match owner_at(regions, x, y) {
            Some(k) => {
                &&& 0 <= k < regions.len()
                &&& regions[k].covers(x, y)
                &&& forall|j: int| k < j < regions.len() ==> !(#[trigger] regions[j]).covers(x, y)
            },
            None => forall|j: int| 0 <= j < regions.len() ==> !(#[trigger] regions[j]).covers(x, y),
        },
    decreases regions.len(),
{
    if regions.len() > 0 {
        let rest = regions.drop_last();
        law_topmost_region_owns_the_cell(rest, x, y);
        assert forall|j: int| 0 <= j < rest.len() implies rest[j] == #[trigger] regions[j] by {}
    }
}

} // verus!
