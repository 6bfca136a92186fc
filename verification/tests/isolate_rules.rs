//! The rules of the isolation pass, one by one.

use tgt::bidi_isolate::{
    cell_width, fill_row_hostable, hostable_columns, isolate_regions, measure_row, row_segments,
    wrap_segment, wrap_segments, LRI, PDI,
};
use tgt::buffer::{Buffer, Cell, CellDiffOption};
use tgt::geometry::Rect;
use tgt::style::Color;

fn cell(symbol: &str) -> Cell {
    Cell {
        symbol: symbol.to_string(),
        fg: Color::Reset,
        bg: Color::Reset,
        modifier: 0,
        diff_option: CellDiffOption::Normal,
        skip: false,
    }
}

/// A buffer of one cell for each character.
fn buffer(x: u16, y: u16, rows: &[&str]) -> Buffer {
    let content: Vec<Cell> = rows
        .iter()
        .flat_map(|row| row.chars())
        .map(|c| cell(&c.to_string()))
        .collect();
    let width = rows[0].chars().count() as u16;
    Buffer { area: Rect { x, y, width, height: rows.len() as u16 }, content }
}

fn symbols(buf: &Buffer) -> Vec<String> {
    buf.content.iter().map(|cell| cell.symbol.clone()).collect()
}

/// The controls of a row, from left to right.
fn controls(buf: &Buffer, y: u16) -> String {
    (buf.area.x..buf.area.x + buf.area.width)
        .flat_map(|x| buf.cell(x, y).symbol.chars().collect::<Vec<_>>())
        .filter(|c| *c == LRI || *c == PDI)
        .collect()
}

#[test]
fn segments_follow_paint_order() {
    let area = Rect::new(0, 0, 30, 3);
    let regions = [Rect::new(0, 0, 15, 3), Rect::new(15, 0, 15, 3), Rect::new(10, 1, 10, 1)];
    assert_eq!(row_segments(&regions, area, 0), vec![(0, 15, 0), (15, 30, 1)]);
    assert_eq!(
        row_segments(&regions, area, 1),
        vec![(0, 10, 0), (10, 20, 2), (20, 30, 1)]
    );
    // Painted first, the popup is hidden beneath the panes.
    let regions = [Rect::new(10, 1, 10, 1), Rect::new(0, 0, 15, 3), Rect::new(15, 0, 15, 3)];
    assert_eq!(row_segments(&regions, area, 1), vec![(0, 15, 1), (15, 30, 2)]);
}

#[test]
fn segments_are_clipped_and_gaps_stay_free() {
    let area = Rect::new(5, 5, 10, 2);
    let regions = [
        Rect::new(0, 0, 8, 20),
        Rect::new(12, 5, 60000, 1),
        Rect::new(9, 6, 0, 1),
        Rect::new(40, 5, 3, 1),
    ];
    assert_eq!(row_segments(&regions, area, 5), vec![(5, 8, 0), (12, 15, 1)]);
    assert_eq!(row_segments(&regions, area, 6), vec![(5, 8, 0)]);
    assert!(row_segments(&[], area, 5).is_empty());
    assert!(row_segments(&regions[1..], area, 30).is_empty());
}

#[test]
fn hidden_region_splits_only_where_another_one_shows() {
    let area = Rect::new(0, 0, 10, 1);
    // The second region covers the middle of the first one.
    let regions = [Rect::new(0, 0, 10, 1), Rect::new(4, 0, 2, 1)];
    assert_eq!(
        row_segments(&regions, area, 0),
        vec![(0, 4, 0), (4, 6, 1), (6, 10, 0)]
    );
}

#[test]
fn cells_are_measured() {
    assert_eq!(cell_width(&cell("a")), 1);
    assert_eq!(cell_width(&cell("界")), 2);
    assert_eq!(cell_width(&cell("")), 0);
    assert_eq!(cell_width(&cell("👋")), 2);
    assert_eq!(cell_width(&cell("a界")), 3);
    // A lone control character counts as one column.
    assert_eq!(cell_width(&cell("\u{1b}")), 1);
    assert_eq!(cell_width(&cell("\u{7f}")), 1);
    let forced = Cell { diff_option: CellDiffOption::ForcedWidth(5), ..cell("a") };
    assert_eq!(cell_width(&forced), 5);
}

#[test]
fn rows_are_measured_from_left_to_right() {
    let buf = buffer(3, 4, &["ab", "界 "]);
    assert_eq!(measure_row(&buf, 4), vec![1, 1]);
    assert_eq!(measure_row(&buf, 5), vec![2, 1]);
}

#[test]
fn hidden_cells_are_found() {
    let mut buf = buffer(2, 0, &["abcdefg"]);
    buf.content[1].symbol = String::new();
    buf.content[2].diff_option = CellDiffOption::Skip;
    buf.content[3].skip = true;
    buf.content[4].skip = true;
    buf.content[4].diff_option = CellDiffOption::AlwaysUpdate;
    let mut hostable = vec![true];
    hostable_columns(&buf, 0, &vec![1, 0, 1, 1, 1, 1, 1], &mut hostable);
    assert_eq!(hostable, vec![true, false, false, false, true, true, true]);
    // A wide cell hides the columns that it covers, also when it is skipped itself.
    hostable_columns(&buf, 0, &vec![1, 0, 4, 1, 1, 1, 1], &mut hostable);
    assert_eq!(hostable, vec![true, false, false, false, false, false, true]);
}

#[test]
fn wide_cells_hide_their_neighbours() {
    let buf = buffer(0, 0, &["界 a"]);
    let mut hostable = Vec::new();
    fill_row_hostable(&buf, 0, &mut hostable);
    assert_eq!(hostable, vec![true, false, true]);
}

#[test]
fn wide_cell_at_the_far_edge_of_the_screen() {
    let mut buf = buffer(u16::MAX - 3, 0, &["abc"]);
    buf.content[0].diff_option = CellDiffOption::ForcedWidth(u16::MAX);
    let mut hostable = Vec::new();
    fill_row_hostable(&buf, 0, &mut hostable);
    assert_eq!(hostable, vec![true, false, false]);
}

#[test]
fn one_segment_is_wrapped() {
    let mut buf = buffer(0, 0, &["abcdef"]);
    wrap_segment(&mut buf, 0, &[true; 6], 2, 4);
    assert_eq!(symbols(&buf), vec!["a", "b\u{2066}", "c", "d\u{2069}", "e", "f"]);
}

#[test]
fn segment_without_emitted_cells_is_left_alone() {
    let mut buf = buffer(0, 0, &["abcdef"]);
    wrap_segment(&mut buf, 0, &[true, true, false, false, true, true], 2, 4);
    assert_eq!(symbols(&buf), vec!["a", "b", "c", "d", "e", "f"]);
    wrap_segment(&mut buf, 0, &[true; 6], 3, 3);
    assert_eq!(symbols(&buf), vec!["a", "b", "c", "d", "e", "f"]);
}

#[test]
fn segment_without_left_neighbour_opens_inside() {
    let mut buf = buffer(0, 0, &["abcdef"]);
    // Nothing is emitted to the left of the segment.
    wrap_segment(&mut buf, 0, &[false, false, false, true, true, true], 2, 5);
    assert_eq!(symbols(&buf), vec!["a", "b", "c", "d\u{2066}", "e\u{2069}", "f"]);
    // The only emitted cell hosts both controls.
    let mut buf = buffer(0, 0, &["abc"]);
    wrap_segment(&mut buf, 0, &[false, true, false], 0, 3);
    assert_eq!(symbols(&buf), vec!["a", "b\u{2066}\u{2069}", "c"]);
}

#[test]
fn segments_share_their_boundary_cell() {
    let mut buf = buffer(0, 0, &["abcd"]);
    wrap_segments(&mut buf, 0, &[true; 4], &[(0, 2, 0), (2, 4, 1)]);
    assert_eq!(
        symbols(&buf),
        vec!["a\u{2066}", "b\u{2069}\u{2066}", "c", "d\u{2069}"]
    );
}

#[test]
fn rows_read_as_one_isolate_after_the_other() {
    let mut buf = buffer(0, 0, &["aa界 bbccdd", "aaaabbccdd"]);
    let regions = [
        Rect::new(0, 0, 4, 2),
        Rect::new(4, 0, 4, 1),
        Rect::new(3, 1, 1, 1),
        Rect::new(8, 0, 2, 2),
    ];
    isolate_regions(&mut buf, &regions);
    assert_eq!(controls(&buf, 0), "\u{2066}\u{2069}".repeat(3));
    assert_eq!(controls(&buf, 1), "\u{2066}\u{2069}".repeat(3));
}

#[test]
fn part_hidden_beneath_a_wide_cell_adds_nothing() {
    // The region covers only the column behind a wide character.
    let mut buf = buffer(0, 0, &["界 ab"]);
    let before = symbols(&buf);
    isolate_regions(&mut buf, &[Rect::new(1, 0, 1, 1)]);
    assert_eq!(symbols(&buf), before);
}

#[test]
fn no_regions_change_nothing() {
    let mut buf = buffer(0, 0, &["abc", "def"]);
    let before = symbols(&buf);
    isolate_regions(&mut buf, &[]);
    assert_eq!(symbols(&buf), before);
    isolate_regions(&mut buf, &[Rect::new(20, 20, 5, 5), Rect::new(1, 1, 0, 0)]);
    assert_eq!(symbols(&buf), before);
}

#[test]
fn area_beyond_the_last_coordinate_is_clipped() {
    let mut buf = buffer(u16::MAX - 1, u16::MAX - 1, &["abc", "def", "ghi"]);
    isolate_regions(&mut buf, &[Rect::new(0, 0, u16::MAX, u16::MAX)]);
    assert_eq!(
        symbols(&buf),
        vec!["a\u{2066}\u{2069}", "b", "c", "d", "e", "f", "g", "h", "i"]
    );
}

#[test]
fn styles_and_options_are_kept() {
    let mut buf = buffer(0, 0, &["ab"]);
    buf.content[0] = Cell {
        symbol: "x".to_string(),
        fg: Color::Rgb(1, 2, 3),
        bg: Color::Indexed(7),
        modifier: 5,
        diff_option: CellDiffOption::AlwaysUpdate,
        skip: true,
    };
    isolate_regions(&mut buf, &[Rect::new(0, 0, 2, 1)]);
    let first = &buf.content[0];
    assert_eq!(first.symbol, "x\u{2066}");
    assert_eq!((first.fg, first.bg), (Color::Rgb(1, 2, 3), Color::Indexed(7)));
    assert_eq!((first.modifier, first.skip), (5, true));
    assert_eq!(first.diff_option, CellDiffOption::AlwaysUpdate);
}

#[test]
fn appended_character_goes_to_one_cell() {
    let mut buf = buffer(7, 9, &["ab", "cd"]);
    buf.append_symbol(8, 10, '!');
    assert_eq!(symbols(&buf), vec!["a", "b", "c", "d!"]);
    assert_eq!(buf.cell(8, 10).symbol, "d!");
}

#[test]
fn controls_take_no_column() {
    let bases = ["", "\u{1}", "\n", "\r", "界", "👋", "ｶﾞ", "م", "e\u{301}", "☃\u{fe0f}", "🇩🇪", "က\u{1039}"];
    let mut symbols: Vec<String> = bases.iter().map(|base| base.to_string()).collect();
    // Every character on its own.
    symbols.extend(('\0'..=char::MAX).map(String::from));
    for base in symbols {
        let width = cell_width(&cell(&base));
        if base.len() == 1 {
            assert_eq!(width, 1, "{base:?}");
        }
        for controls in ["\u{2066}", "\u{2069}", "\u{2069}\u{2066}", "\u{2066}\u{2066}\u{2069}"] {
            assert_eq!(cell_width(&cell(&format!("{base}{controls}"))), width, "{base:?}");
        }
    }
    let forced = Cell { diff_option: CellDiffOption::ForcedWidth(7), ..cell("a\u{2066}") };
    assert_eq!(cell_width(&forced), 7);
}

#[test]
fn pass_keeps_widths_and_emitted_cells() {
    let mut buf = buffer(0, 0, &["│سلام│دنیا│", "界 ab 👋 c de"]);
    let (mut before, mut after) = (Vec::new(), Vec::new());
    let original = buf.clone();
    isolate_regions(&mut buf, &[Rect::new(0, 0, 5, 2), Rect::new(5, 0, 6, 2)]);
    assert_ne!(symbols(&original), symbols(&buf));
    for y in 0..2 {
        assert_eq!(measure_row(&original, y), measure_row(&buf, y));
        fill_row_hostable(&original, y, &mut before);
        fill_row_hostable(&buf, y, &mut after);
        assert_eq!(before, after);
    }
}

#[test]
fn row_of_ascii_hosts_every_cell_that_is_not_skipped() {
    let mut buf = buffer(0, 0, &["a b~c"]);
    buf.content[3].skip = true;
    let mut hostable = Vec::new();
    fill_row_hostable(&buf, 0, &mut hostable);
    assert_eq!(hostable, vec![true, true, true, false, true]);
}
