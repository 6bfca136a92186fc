//! QR codes of login links.

use tgt::geometry::Rect;
use tgt::login_screen::plan_qr;
use tgt::qr::{draw_code, qr_dark, side_pixels, CachedQr, QrMatrix};

/// A code of the given width with nothing dark but the modules listed.
fn code(width: usize, dark: &[(usize, usize)]) -> QrMatrix {
    let mut modules = vec![false; width * width];
    for (x, y) in dark {
        modules[y * width + x] = true;
    }
    QrMatrix { width, modules }
}

#[test]
fn link_is_encoded_at_both_levels() {
    let codes = CachedQr::fresh("tg://login?token=abc");
    let (medium, low) = (codes.medium.unwrap(), codes.low.unwrap());
    for matrix in [&medium, &low] {
        assert_eq!(matrix.modules.len(), matrix.width * matrix.width);
        // The corner of a finder pattern, and the light ring inside it.
        assert!(matrix.modules[0] && matrix.modules[6]);
        assert!(!matrix.modules[matrix.width + 1]);
    }
    assert!(low.width <= medium.width);
    // The same link gives the same code, another link another one.
    let again = CachedQr::fresh("tg://login?token=abc").medium.unwrap();
    assert_eq!(again.modules, medium.modules);
    let other = CachedQr::fresh("tg://login?token=abd").medium.unwrap();
    assert_ne!(other.modules, medium.modules);
    // The two levels differ.
    assert_ne!(low.modules, medium.modules);
}

#[test]
fn modules_agree_with_the_encoder() {
    let link = "tg://login?token=0123456789abcdefghijklmnopqrstuvwxyz";
    let expected =
        qrcode::QrCode::with_error_correction_level(link.as_bytes(), qrcode::EcLevel::M).unwrap();
    let matrix = CachedQr::fresh(link).medium.unwrap();
    assert_eq!(matrix.width, expected.width());
    for y in 0..matrix.width {
        for x in 0..matrix.width {
            assert_eq!(
                matrix.modules[y * matrix.width + x],
                expected[(x, y)] == qrcode::Color::Dark
            );
        }
    }
}

#[test]
fn link_that_is_too_long_has_no_code() {
    for link in ["x".repeat(177), "x".repeat(4000), "é".repeat(36), "x".repeat(40) + "é"] {
        let codes = CachedQr::fresh(&link);
        assert!(codes.medium.is_none() && codes.low.is_none());
        assert!(codes.pick(60000, 60000).is_none());
    }
}

#[test]
fn longest_links_make_codes_of_at_most_65_modules() {
    let ascii = [
        "x", "X", "1", "\0", "U", "*", "a1234", "a1234A", "a1234567A", "aABCDEFG", "12345678A",
        "a1234b12345678AB", "aABCDEFG1234", "a12345678ABCDEFG", "\u{5}%Z\n P",
    ];
    let mut links: Vec<String> = ascii
        .iter()
        .map(|piece| piece.chars().cycle().take(176).collect())
        .collect();
    let wide = ["é", "界", "😀", "\u{10ffff}", "あ1", "ア12", "漢字A", "é1234", "😀1"];
    links.extend(wide.iter().map(|piece| piece.chars().cycle().take(35).collect::<String>()));
    for link in links {
        let codes = CachedQr::fresh(&link);
        let (medium, low) = (codes.medium.unwrap(), codes.low.unwrap());
        assert!(low.width <= medium.width && medium.width <= 65, "{link:?}: {}", medium.width);
    }
}

#[test]
fn pick_takes_the_largest_scale_and_then_medium_correction() {
    let codes = CachedQr { medium: Some(code(25, &[])), low: Some(code(21, &[])) };
    let pick = |width, height| codes.pick(width, height).map(|(code, scale)| (code.width, scale));
    // 33 pixels a side with medium correction, 29 with low correction.
    assert_eq!(pick(99, 50), Some((25, 3)));
    assert_eq!(pick(98, 50), Some((21, 3)));
    assert_eq!(pick(87, 44), Some((21, 3)));
    assert_eq!(pick(86, 44), Some((25, 2)));
    assert_eq!(pick(33, 17), Some((25, 1)));
    assert_eq!(pick(32, 17), Some((21, 1)));
    assert_eq!(pick(29, 15), Some((21, 1)));
    assert_eq!(pick(28, 15), None);
    assert_eq!(pick(29, 14), None);
    let none = CachedQr { medium: None, low: None };
    assert!(none.pick(500, 500).is_none());
}

#[test]
fn pixels_show_modules_inside_the_quiet_zone() {
    let matrix = code(2, &[(1, 0)]);
    assert_eq!(side_pixels(&matrix, 3), 30);
    for y in 0..30 {
        for x in 0..30 {
            let inside = (15..18).contains(&x) && (12..15).contains(&y);
            assert_eq!(qr_dark(&matrix, 3, x, y), inside, "({x}, {y})");
        }
    }
    assert!(!qr_dark(&matrix, 3, 1000, 1000));
}

#[test]
fn two_pixels_share_a_cell() {
    // Column 0 shows all four pairs of pixels.
    let matrix = code(8, &[(0, 0), (0, 1), (0, 2), (0, 5)]);
    let rows = draw_code(&matrix, 1);
    assert_eq!(rows.len(), 8);
    let column: Vec<char> = rows.iter().map(|row| row.chars().nth(4).unwrap()).collect();
    assert_eq!(column, vec![' ', ' ', '█', '▀', '▄', ' ', ' ', ' ']);
    assert!(rows.iter().all(|row| row.chars().count() == 16));
    // An odd number of pixels leaves the last half row light.
    let rows = draw_code(&code(1, &[(0, 0)]), 1);
    assert_eq!(rows.len(), 5);
    assert_eq!(rows[2], "    ▀    ");
    assert_eq!(rows[4], " ".repeat(9));
}

#[test]
fn code_is_placed_with_headers_and_errors() {
    let codes = CachedQr { medium: Some(code(21, &[])), low: None };
    let area = Rect::new(0, 0, 80, 24);
    // 29 pixels: 15 rows, and room for both headers.
    let (matrix, scale, layout) = plan_qr(&codes, area, 0, 0, 40).unwrap();
    assert_eq!((matrix.width, scale, layout.headers), (21, 1, 2));
    assert_eq!(layout.card, Rect::new(14, 2, 52, 19));
    assert_eq!(layout.inner, Rect::new(15, 3, 50, 17));
    assert_eq!((layout.left, layout.top), (25, 5));
    assert_eq!(layout.error_area, Rect::new(15, 20, 50, 0));
    // Five error lines leave room for both headers, six for one, seven for none.
    assert_eq!(plan_qr(&codes, area, 5, 30, 40).unwrap().2.headers, 2);
    let (_, _, layout) = plan_qr(&codes, area, 6, 60, 40).unwrap();
    assert_eq!(layout.headers, 1);
    assert_eq!(layout.card, Rect::new(9, 0, 62, 24));
    assert_eq!(layout.error_area, Rect::new(10, 17, 60, 6));
    assert_eq!(plan_qr(&codes, area, 7, 30, 40).unwrap().2.headers, 0);
    assert!(plan_qr(&codes, area, 8, 30, 40).is_none());
    // Instructions that are too wide give way to the short header.
    assert_eq!(plan_qr(&codes, area, 0, 0, 79).unwrap().2.headers, 1);
    // Errors that are too wide or too many.
    assert!(plan_qr(&codes, area, 1, 79, 40).is_none());
    assert!(plan_qr(&codes, area, 23, 1, 40).is_none());
    assert!(plan_qr(&codes, Rect::new(0, 0, 1, 1), 0, 0, 40).is_none());
}
