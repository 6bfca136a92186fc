//! The isolation pass on rendered frames.

use ratatui::buffer::Buffer;
use ratatui::layout::Rect;
use ratatui::style::{Color, Modifier, Style};
use tgt::bidi_isolate::{isolate_regions, LRI, PDI};

/// The color in the library's terms, for the colors that occur here.
fn to_color(color: Color) -> tgt::style::Color {
    match color {
        Color::Reset => tgt::style::Color::Reset,
        Color::Red => tgt::style::Color::Red,
        other => panic!("no test uses {other:?}"),
    }
}

/// The color in ratatui's terms, for the colors that occur here.
fn from_color(color: tgt::style::Color) -> Color {
    match color {
        tgt::style::Color::Reset => Color::Reset,
        tgt::style::Color::Red => Color::Red,
        other => panic!("no test uses {other:?}"),
    }
}

/// The cell in the library's terms.
#[allow(deprecated)]
fn to_cell(cell: &ratatui::buffer::Cell) -> tgt::buffer::Cell {
    tgt::buffer::Cell {
        symbol: cell.symbol().to_string(),
        fg: to_color(cell.fg),
        bg: to_color(cell.bg),
        modifier: cell.modifier.bits(),
        diff_option: match cell.diff_option {
            ratatui::buffer::CellDiffOption::None => tgt::buffer::CellDiffOption::Normal,
            ratatui::buffer::CellDiffOption::Skip => tgt::buffer::CellDiffOption::Skip,
            ratatui::buffer::CellDiffOption::AlwaysUpdate => {
                tgt::buffer::CellDiffOption::AlwaysUpdate
            }
            ratatui::buffer::CellDiffOption::ForcedWidth(width) => {
                tgt::buffer::CellDiffOption::ForcedWidth(width.get())
            }
        },
        skip: cell.skip,
    }
}

/// Runs the pass over a ratatui buffer, by way of the library's grid.
fn isolate(buf: &mut Buffer, regions: &[Rect]) {
    let mut grid = tgt::buffer::Buffer {
        area: to_rect(buf.area),
        content: buf.content.iter().map(to_cell).collect(),
    };
    let regions: Vec<tgt::geometry::Rect> = regions.iter().map(|rect| to_rect(*rect)).collect();
    isolate_regions(&mut grid, &regions);
    assert_eq!(grid.area, to_rect(buf.area));
    assert_eq!(grid.content.len(), buf.content.len());
    for (after, before) in grid.content.iter().zip(buf.content.iter_mut()) {
        before.set_symbol(&after.symbol);
        before.fg = from_color(after.fg);
        before.bg = from_color(after.bg);
        before.modifier = Modifier::from_bits_truncate(after.modifier);
    }
}

fn to_rect(rect: Rect) -> tgt::geometry::Rect {
    tgt::geometry::Rect { x: rect.x, y: rect.y, width: rect.width, height: rect.height }
}

fn cell_is_skipped(cell: &ratatui::buffer::Cell) -> bool {
    to_cell(cell).is_skipped()
}

/// Count (LRI, PDI) occurrences across every cell of the buffer.
fn control_counts(buf: &Buffer) -> (usize, usize) {
    let mut counts = (0, 0);
    for y in buf.area.top()..buf.area.bottom() {
        for x in buf.area.left()..buf.area.right() {
            for c in buf[(x, y)].symbol().chars() {
                if c == LRI {
                    counts.0 += 1;
                } else if c == PDI {
                    counts.1 += 1;
                }
            }
        }
    }
    counts
}

/// Every cell must keep its base character as a prefix, gain only
/// zero-width controls, and retain its style.
fn assert_geometry_and_styles_preserved(before: &Buffer, after: &Buffer) {
    assert_eq!(before.area, after.area);
    for y in before.area.top()..before.area.bottom() {
        for x in before.area.left()..before.area.right() {
            let (before_cell, after_cell) = (&before[(x, y)], &after[(x, y)]);
            let base = before_cell.symbol();
            assert!(
                after_cell.symbol().starts_with(base),
                "cell ({x}, {y}): {:?} lost its base character {:?}",
                after_cell.symbol(),
                base
            );
            assert!(
                after_cell.symbol()[base.len()..]
                    .chars()
                    .all(|c| c == LRI || c == PDI),
                "cell ({x}, {y}): unexpected suffix in {:?}",
                after_cell.symbol()
            );
            assert_eq!(after_cell.fg, before_cell.fg, "cell ({x}, {y}) fg");
            assert_eq!(after_cell.bg, before_cell.bg, "cell ({x}, {y}) bg");
            assert_eq!(
                after_cell.modifier, before_cell.modifier,
                "cell ({x}, {y}) modifier"
            );
        }
    }
}

#[test]
fn two_adjacent_arabic_regions_are_isolated_separately() {
    let mut buf = Buffer::empty(Rect::new(0, 0, 11, 1));
    buf.set_string(0, 0, "│سلام│دنیا│", Style::default());
    let before = buf.clone();

    isolate(&mut buf, &[Rect::new(0, 0, 5, 1), Rect::new(5, 0, 6, 1)]);

    // First region starts at the buffer edge: LRI follows its border.
    assert_eq!(buf[(0, 0)].symbol(), "│\u{2066}");
    // Shared boundary cell hosts the first region's PDI followed by the
    // second region's LRI, in that logical order.
    assert_eq!(buf[(4, 0)].symbol(), "م\u{2069}\u{2066}");
    // Second region's PDI closes after its last printed cell.
    assert_eq!(buf[(10, 0)].symbol(), "│\u{2069}");
    assert_eq!(control_counts(&buf), (2, 2));
    assert_geometry_and_styles_preserved(&before, &buf);
}

#[test]
fn nonzero_buffer_origin_uses_left_border_as_isolate_host() {
    let mut buf = Buffer::empty(Rect::new(5, 7, 11, 2));
    buf.set_string(5, 7, "│سلام│دنیا│", Style::default());
    let before = buf.clone();

    isolate(&mut buf, &[Rect::new(5, 7, 5, 1), Rect::new(10, 7, 6, 1)]);

    assert_eq!(buf[(5, 7)].symbol(), "│\u{2066}");
    assert_eq!(buf[(9, 7)].symbol(), "م\u{2069}\u{2066}");
    assert_eq!(buf[(15, 7)].symbol(), "│\u{2069}");
    assert_eq!(control_counts(&buf), (2, 2));
    for x in 5..16 {
        assert_eq!(buf[(x, 8)].symbol(), before[(x, 8)].symbol());
    }
    assert_geometry_and_styles_preserved(&before, &buf);
}

#[test]
fn mixed_content_and_emoji_keep_geometry() {
    let mut buf = Buffer::empty(Rect::new(0, 0, 20, 1));
    buf.set_string(2, 0, "Hi سلام 123 👋!", Style::default());
    let before = buf.clone();

    isolate(&mut buf, &[Rect::new(2, 0, 15, 1)]);

    // LRI attaches to the cell left of the region.
    assert_eq!(buf[(1, 0)].symbol(), " \u{2066}");
    // PDI attaches to the last printed cell, after the wide emoji.
    assert_eq!(buf[(16, 0)].symbol(), "!\u{2069}");
    // Ratatui resets the emoji's hidden continuation column to an
    // ordinary space; the isolation pass must still leave it untouched.
    assert!(!cell_is_skipped(&buf[(15, 0)]));
    assert_eq!(buf[(15, 0)].symbol(), " ");
    assert_eq!(control_counts(&buf), (1, 1));
    assert_geometry_and_styles_preserved(&before, &buf);
}

#[test]
fn styled_spans_keep_their_styles() {
    let mut buf = Buffer::empty(Rect::new(0, 0, 8, 1));
    let styled = Style::default().fg(Color::Red).add_modifier(Modifier::BOLD);
    buf.set_string(1, 0, "سلام", styled);
    let before = buf.clone();

    isolate(&mut buf, &[Rect::new(1, 0, 4, 1)]);

    assert_eq!(buf[(0, 0)].symbol(), " \u{2066}");
    assert_eq!(buf[(4, 0)].symbol(), "م\u{2069}");
    assert_eq!(control_counts(&buf), (1, 1));
    assert_geometry_and_styles_preserved(&before, &buf);
}

#[test]
fn right_aligned_text_is_wrapped_around_its_padding() {
    let mut buf = Buffer::empty(Rect::new(0, 0, 10, 1));
    buf.set_string(5, 0, "سلام", Style::default());
    let before = buf.clone();

    isolate(&mut buf, &[Rect::new(0, 0, 10, 1)]);

    // Region touches the left buffer edge: LRI follows the first cell.
    assert_eq!(buf[(0, 0)].symbol(), " \u{2066}");
    // PDI follows the last printed cell of the region (trailing space).
    assert_eq!(buf[(9, 0)].symbol(), " \u{2069}");
    assert_eq!(control_counts(&buf), (1, 1));
    assert_geometry_and_styles_preserved(&before, &buf);
}

#[test]
fn popup_occludes_pane_boundary_without_splitting_its_isolate() {
    let mut buf = Buffer::empty(Rect::new(0, 0, 30, 3));
    for y in 0..3 {
        buf.set_string(0, y, "aaaaaaaaaaaaaaabbbbbbbbbbbbbbb", Style::default());
    }
    buf.set_string(10, 1, "POPUP-POP!", Style::default());
    let before = buf.clone();

    let panes = [Rect::new(0, 0, 15, 3), Rect::new(15, 0, 15, 3)];
    let popup = Rect::new(10, 1, 10, 1);
    isolate(&mut buf, &[panes[0], panes[1], popup]);

    // Rows without the popup: one isolate pair per pane.
    for y in [0, 2] {
        let mut row_counts = (0, 0);
        for x in 0..30 {
            row_counts.0 += buf[(x, y)].symbol().matches(LRI).count();
            row_counts.1 += buf[(x, y)].symbol().matches(PDI).count();
        }
        assert_eq!(row_counts, (2, 2), "row {y}");
    }
    // Popup row: the topmost popup owns [10, 20) as one contiguous
    // segment; the invisible pane boundary at x=15 must not split it.
    let mut row_counts = (0, 0);
    for x in 0..30 {
        row_counts.0 += buf[(x, 1)].symbol().matches(LRI).count();
        row_counts.1 += buf[(x, 1)].symbol().matches(PDI).count();
    }
    assert_eq!(row_counts, (3, 3));
    assert!(buf[(9, 1)].symbol().contains(PDI));
    assert!(buf[(19, 1)].symbol().contains(PDI));
    assert!(!buf[(14, 1)].symbol().contains(LRI));
    assert!(!buf[(14, 1)].symbol().contains(PDI));
    assert_geometry_and_styles_preserved(&before, &buf);
}

#[test]
fn wide_character_at_segment_end_hosts_pdi_on_its_base_cell() {
    let mut buf = Buffer::empty(Rect::new(0, 0, 8, 1));
    buf.set_string(1, 0, "ab界", Style::default());
    let before = buf.clone();

    // Region ends exactly after the wide character: Ratatui's diff skips
    // its reset continuation column even though `Cell::skip` is false.
    isolate(&mut buf, &[Rect::new(1, 0, 4, 1)]);

    assert_eq!(buf[(0, 0)].symbol(), " \u{2066}");
    assert_eq!(buf[(3, 0)].symbol(), "界\u{2069}");
    assert!(!cell_is_skipped(&buf[(4, 0)]));
    assert_eq!(buf[(4, 0)].symbol(), " ");
    assert_eq!(control_counts(&buf), (1, 1));
    // Ratatui's final buffer diff emits the base cell carrying PDI and
    // skips only the wide character's hidden continuation column.
    let updates = before.diff(&buf);
    assert!(updates
        .iter()
        .any(|(x, y, cell)| *x == 3 && *y == 0 && cell.symbol() == "界\u{2069}"));
    assert!(!updates.iter().any(|(x, y, _)| *x == 4 && *y == 0));
    assert_geometry_and_styles_preserved(&before, &buf);
}

#[test]
fn wide_left_neighbor_hosts_lri_on_its_base_cell() {
    let mut buf = Buffer::empty(Rect::new(0, 0, 10, 1));
    buf.set_string(0, 0, "界", Style::default());
    buf.set_string(2, 0, "│سلام│", Style::default());
    let before = buf.clone();

    // Cell 1 is hidden by 界. The LRI must attach to cell 0 rather than
    // opening after the region's first printable cell at x=2.
    isolate(&mut buf, &[Rect::new(2, 0, 6, 1)]);

    assert_eq!(buf[(0, 0)].symbol(), "界\u{2066}");
    assert_eq!(buf[(1, 0)].symbol(), " ");
    assert_eq!(buf[(7, 0)].symbol(), "│\u{2069}");
    assert_eq!(control_counts(&buf), (1, 1));
    assert_geometry_and_styles_preserved(&before, &buf);
}

#[test]
fn controls_are_balanced_on_every_row_and_untouched_rows_stay_clean() {
    let mut buf = Buffer::empty(Rect::new(0, 0, 20, 4));
    buf.set_string(0, 0, "│سلام│", Style::default());
    buf.set_string(0, 1, "│دنیا│", Style::default());
    let before = buf.clone();

    isolate(&mut buf, &[Rect::new(0, 0, 6, 2)]);

    assert_eq!(control_counts(&buf), (2, 2));
    // Rows outside every region are left alone.
    for y in 2..4 {
        for x in 0..20 {
            assert_eq!(buf[(x, y)].symbol(), before[(x, y)].symbol());
        }
    }
    assert_geometry_and_styles_preserved(&before, &buf);
}
