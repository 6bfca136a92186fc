//! Rectangles, characters, strings and widths.

use tgt::geometry::{centered_rect, place_card, Rect};
use tgt::style::{active_style, error_style, hint_style, plain_style, Color};
use tgt::text::{
    card_height, contains_char, from_chars, is_alphanumeric, is_control, is_digit, is_white_space,
    line_width, line_widths, max_width, repeat_char, split_lines, to_chars, trim, Line, Span,
};

#[test]
fn rectangles_end_on_the_screen() {
    let rect = Rect::new(u16::MAX - 2, 5, 10, 3);
    assert_eq!(rect, Rect { x: u16::MAX - 2, y: 5, width: 2, height: 3 });
    assert_eq!((rect.left(), rect.right()), (u16::MAX - 2, u16::MAX));
    assert_eq!((rect.top(), rect.bottom()), (5, 8));
    let beyond = Rect { x: u16::MAX, y: u16::MAX, width: 4, height: 4 };
    assert_eq!((beyond.right(), beyond.bottom()), (u16::MAX, u16::MAX));
    assert!(Rect::new(1, 1, 0, 4).is_empty());
    assert!(Rect::new(1, 1, 4, 0).is_empty());
    assert!(!Rect::new(1, 1, 1, 1).is_empty());
}

#[test]
fn cards_are_centered() {
    let area = Rect::new(10, 20, 80, 24);
    assert_eq!(centered_rect(52, 9, area), Rect::new(24, 27, 52, 9));
    // What is left over goes below and to the right.
    assert_eq!(centered_rect(51, 8, area), Rect::new(24, 28, 51, 8));
    // A card that is too large takes the whole area.
    assert_eq!(centered_rect(100, 100, area), area);
}

#[test]
fn border_takes_one_cell_on_each_side() {
    let area = Rect::new(0, 0, 80, 24);
    assert_eq!(
        place_card(52, 9, area),
        (Rect::new(14, 7, 52, 9), Rect::new(15, 8, 50, 7))
    );
    // A card without room inside its border.
    assert_eq!(
        place_card(1, 2, area),
        (Rect::new(39, 11, 1, 2), Rect::new(40, 12, 0, 0))
    );
    let nothing = Rect::new(5, 6, 0, 0);
    assert_eq!(place_card(9, 9, nothing), (nothing, nothing));
}

#[test]
fn character_classes_agree_with_the_standard_library() {
    for c in '\0'..=char::MAX {
        assert_eq!(is_digit(c), c.is_ascii_digit(), "{c:?}");
        assert_eq!(is_alphanumeric(c), c.is_ascii_alphanumeric(), "{c:?}");
        assert_eq!(is_control(c), c.is_control(), "{c:?}");
        assert_eq!(is_white_space(c), c.is_whitespace(), "{c:?}");
    }
}

#[test]
fn white_space_is_trimmed_at_both_ends() {
    for s in ["", " ", "a", "  a b\t", "\u{a0}x\u{3000}", "x ", " x", "\n\r a \u{2028}", "é "] {
        assert_eq!(trim(s), s.trim(), "{s:?}");
        assert_eq!(trim(trim(s)), trim(s), "{s:?}");
    }
}

#[test]
fn lines_are_split() {
    for s in [
        "", "a", "a\n", "a\nb", "a\r\nb\r\n", "\n", "\n\n", "\r\n", "\r", "a\r", "a\r\r\nb", "a\n\rb",
        "é\n界\n",
    ] {
        assert_eq!(split_lines(s), s.lines().collect::<Vec<_>>(), "{s:?}");
    }
}

#[test]
fn strings_and_characters() {
    assert_eq!(to_chars("a界"), vec!['a', '界']);
    assert_eq!(from_chars(&vec!['x', '界', 'y'], 1, 3), "界y");
    assert_eq!(repeat_char('•', 3), "•••");
    assert_eq!(repeat_char('•', 0), "");
    assert!(contains_char("a@b", '@'));
    assert!(!contains_char("ab", '@'));
    assert!(!contains_char("", '@'));
}

fn line(texts: &[&str]) -> Line {
    Line {
        spans: texts
            .iter()
            .map(|text| Span { text: text.to_string(), style: plain_style() })
            .collect(),
        style: plain_style(),
    }
}

#[test]
fn lines_are_measured_in_columns() {
    assert_eq!(line_width(&line(&["abc"])), 3);
    assert_eq!(line_width(&line(&["界界", " ", "é"])), 6);
    assert_eq!(line_width(&line(&[])), 0);
    let lines = vec![line(&["界"]), line(&["a", "bcd"]), line(&[""])];
    assert_eq!(line_widths(&lines), vec![2, 4, 0]);
    assert_eq!(max_width(&vec![2, 4, 0]), 4);
    assert_eq!(max_width(&Vec::new()), 0);
}

#[test]
fn card_is_as_high_as_its_wrapped_lines() {
    // One row each for 0, 9 and 10 columns, two for 11, three for 21.
    assert_eq!(card_height(&vec![0, 9, 10, 11, 21], 10, 100), 10);
    assert_eq!(card_height(&vec![0, 9, 10, 11, 21], 10, 7), 7);
    assert_eq!(card_height(&Vec::new(), 10, 100), 2);
    assert_eq!(card_height(&vec![usize::MAX, usize::MAX], 1, u16::MAX), u16::MAX);
}

#[test]
fn styles() {
    assert_eq!(active_style().fg, Some(Color::Black));
    assert_eq!(active_style().bg, Some(Color::White));
    assert!(hint_style().dim && !active_style().dim);
    assert_eq!(error_style().fg, Some(Color::Red));
    assert_eq!((plain_style().fg, plain_style().bg), (None, None));
}
