//! QR codes for the login link.

use crate::text::string_views;
use vstd::prelude::*;

verus! {

/// Width of the light border around a QR code, in modules.
pub const QUIET: usize = 4;

/// How much of a QR code can be damaged before it cannot be read.
#[derive(Clone, Copy, Debug, PartialEq, Eq, Structural)]
pub enum EcLevel {
    Low,
    Medium,
}

/// The modules of a QR code, row by row; `true` is dark.
///
/// The type has no `Debug`: the modules spell the login link.
pub struct QrMatrix {
    pub width: usize,
    pub modules: Vec<bool>,
}

/// What a QR code holds.
pub struct QrView {
    pub width: nat,
    pub modules: Seq<bool>,
}

impl View for QrMatrix {
    type V = QrView;

    open spec fn view(&self) -> QrView {
        QrView { width: self.width as nat, modules: self.modules@ }
    }
}

impl QrView {
    /// The code is a square.
    pub open spec fn square(self) -> bool {
        self.modules.len() == self.width * self.width
    }

    /// The module in column `x` and row `y` is dark.
    pub open spec fn module(self, x: int, y: int) -> bool {
        self.modules[y * self.width + x]
    }
}

/// The QR code that `QrCode::with_error_correction_level` of qrcode makes of a
/// link, if there is one.
pub uninterp spec fn qr_encoding(link: Seq<char>, level: EcLevel) -> Option<QrView>;

/// The most characters that an ASCII link can have to be encoded.
pub const LONGEST_ASCII_LINK: usize = 176;

/// The most characters that any other link can have to be encoded: 140 bytes.
pub const LONGEST_LINK: usize = 35;

/// The link is short enough to be encoded.
pub open spec fn short_link(link: Seq<char>) -> bool {
    ||| link.len() <= LONGEST_LINK
    ||| link.len() <= LONGEST_ASCII_LINK && vstd::utf8::is_ascii_chars(link)
}

/// Encodes a link as a QR code.
///
/// Calls `qrcode::QrCode::with_error_correction_level` on the bytes of the link,
/// and reads the width and the modules of the code. What is claimed: the result
/// is settled by the link and the level alone, and a code is a square.
///
/// Longer links are left out, because the encoder adds up the penalty points of a
/// mask in a `u16`, and on a large code the sum can overflow, which stops a build
/// with overflow checks. A short link makes a code of version 12 at most, of 65
/// modules a side, and no arrangement of those gives more than 62178 points:
///
/// * runs, at most 63 on each of 130 rows and columns: 8190;
/// * blocks, 3 for each of 64 by 64: 12288;
/// * shapes like a finder pattern, 40 for each of at most eight on each of 130 rows
///   and columns: 41600. One counts only beside four light modules or the edge of
///   the code, so that nine on a line would need 67 modules;
/// * balance: 100.
///
/// Version 12 holds 2320 bits at medium correction, more at low correction. An
/// ASCII link of `n` characters takes at most `20 + 13 * n`, that is 2308. A header
/// takes at most 20 bits and a character at most 8, and a new segment begins only
/// where that saves bits: then either the segment before it takes fewer bits than 8
/// to a character with its header, or the new one has at least four characters,
/// with 5 bits each towards the header before it. Where bytes pass for Kanji, a
/// segment of one or two bytes can begin as well, and a byte takes at most 16 bits:
/// 2260 for 140 bytes.
#[allow(deprecated)]
#[verifier::external_body]
fn encode_link(link: &str, level: EcLevel) -> (code: Option<QrMatrix>)
    requires
        short_link(link@),
    ensures
        match code {
            Some(matrix) => qr_encoding(link@, level) == Some(matrix@) && matrix@.square(),
            None => qr_encoding(link@, level) is None,
        },
{
    let level = match level {
        EcLevel::Low => qrcode::EcLevel::L,
        EcLevel::Medium => qrcode::EcLevel::M,
    };
    match qrcode::QrCode::with_error_correction_level(link.as_bytes(), level) {
        Ok(code) => Some(QrMatrix { width: code.width(), modules: code.into_vec() }),
        Err(_) => None,
    }
}

/// The codes of one login link: one with medium correction, and a smaller one
/// with low correction to fall back to.
pub struct CachedQr {
    pub medium: Option<QrMatrix>,
    pub low: Option<QrMatrix>,
}

/// What the codes of a link hold.
#[verifier::ext_equal]
pub struct CachedQrView {
    pub medium: Option<QrView>,
    pub low: Option<QrView>,
}

/// What an optional code holds.
pub open spec fn code_view(code: Option<QrMatrix>) -> Option<QrView> {
    match code {
        Some(matrix) => Some(matrix@),
        None => None,
    }
}

impl View for CachedQr {
    type V = CachedQrView;

    open spec fn view(&self) -> CachedQrView {
        CachedQrView { medium: code_view(self.medium), low: code_view(self.low) }
    }
}

impl CachedQrView {
    /// Both codes are squares.
    pub open spec fn square(self) -> bool {
        &&& self.medium is Some ==> self.medium->0.square()
        &&& self.low is Some ==> self.low->0.square()
    }
}

/// The codes of a link. A link that is too long has none.
pub open spec fn fresh_codes(link: Seq<char>) -> CachedQrView {
    if short_link(link) {
        CachedQrView {
            medium: qr_encoding(link, EcLevel::Medium),
            low: qr_encoding(link, EcLevel::Low),
        }
    } else {
        CachedQrView { medium: None, low: None }
    }
}

/// The side of a code with its quiet zone, in pixels of `scale` to a module.
pub open spec fn side(width: int, scale: int) -> int {
    (width + 2 * QUIET) * scale
}

/// The rows of the screen that `pixels` rows of pixels take: two share one row.
pub open spec fn half_rows(pixels: int) -> int {
    (pixels + 1) / 2
}

/// A code of the given width fits into `columns` by `rows` cells at `scale`.
pub open spec fn fits(width: int, scale: int, columns: int, rows: int) -> bool {
    side(width, scale) <= columns && half_rows(side(width, scale)) <= rows
}

/// The code shown in `columns` by `rows` cells at a scale of at most `scale`,
/// and its scale: the largest scale at which a code fits, and at that scale the
/// code with medium correction if it fits.
pub open spec fn best_fit(codes: CachedQrView, columns: int, rows: int, scale: int) -> Option<
    (QrView, int),
>
    decreases scale,
{
    if scale <= 0 {
        None
    } else if codes.medium is Some && fits(codes.medium->0.width as int, scale, columns, rows) {
        Some((codes.medium->0, scale))
    } else if codes.low is Some && fits(codes.low->0.width as int, scale, columns, rows) {
        Some((codes.low->0, scale))
    } else {
        best_fit(codes, columns, rows, scale - 1)
    }
}

/// The code shown in `columns` by `rows` cells, and its scale.
pub open spec fn picked(codes: CachedQrView, columns: int, rows: int) -> Option<(QrView, int)> {
    best_fit(codes, columns, rows, 3)
}

/// A square that fits in memory is small enough to be scaled.
proof fn lemma_square_is_small(width: int, len: int)
    requires
        0 <= width,
        len == width * width,
        len <= usize::MAX,
    ensures
        (width + 2 * QUIET) * 3 + 1 <= usize::MAX,
{
    if width >= 100 {
        assert(width * 100 <= width * width) by (nonlinear_arith)
            requires
                width >= 100,
        ;
    }
}

/// The side of a scaled code, in pixels.
pub fn side_pixels(matrix: &QrMatrix, scale: usize) -> (pixels: usize)
    requires
        matrix@.square(),
        scale <= 3,
    ensures
        pixels == side(matrix.width as int, scale as int),
        pixels < usize::MAX,
{
    proof {
        lemma_square_is_small(matrix.width as int, matrix.modules.len() as int);
        let (w, s) = (matrix.width + 2 * QUIET, scale as int);
        assert(0 <= w * s <= w * 3) by (nonlinear_arith)
            requires
                0 <= w,
                0 <= s <= 3,
        ;
    }
    (matrix.width + QUIET * 2) * scale
}

/// The code fits into `columns` by `rows` cells at `scale`.
fn code_fits(matrix: &QrMatrix, scale: usize, columns: usize, rows: usize) -> (yes: bool)
    requires
        matrix@.square(),
        scale <= 3,
    ensures
        yes == fits(matrix.width as int, scale as int, columns as int, rows as int),
{
    let pixels = side_pixels(matrix, scale);
    pixels <= columns && (pixels + 1) / 2 <= rows
}

impl CachedQr {
    /// Encodes a link once, with medium and with low correction. A link that is
    /// too long has no code.
    pub fn fresh(link: &str) -> (codes: CachedQr)
        ensures
            codes@ == fresh_codes(link@),
            codes@.square(),
    {
        let len = link.unicode_len();
        if len > LONGEST_LINK && (len > LONGEST_ASCII_LINK || !link.is_ascii()) {
            return CachedQr { medium: None, low: None };
        }
        CachedQr {
            medium: encode_link(link, EcLevel::Medium),
            low: encode_link(link, EcLevel::Low),
        }
    }

    /// Picks the code to show in `width` by `height` cells, and its scale: the
    /// largest scale up to three at which a code fits, with medium correction if
    /// that code fits.
    pub fn pick(&self, width: usize, height: usize) -> (choice: Option<(&QrMatrix, usize)>)
        requires
            self@.square(),
        ensures
            match choice {
                Some((matrix, scale)) => {
                    &&& picked(self@, width as int, height as int) == Some((matrix@, scale as int))
                    &&& matrix@.square()
                    &&& 1 <= scale <= 3
                },
                None => picked(self@, width as int, height as int) is None,
            },
    {
        let mut scale: usize = 3;
        while scale > 0
            invariant
                scale <= 3,
                self@.square(),
                picked(self@, width as int, height as int) == best_fit(
                    self@,
                    width as int,
                    height as int,
                    scale as int,
                ),
            decreases scale,
        {
            if let Some(matrix) = &self.medium {
                if code_fits(matrix, scale, width, height) {
                    return Some((matrix, scale));
                }
            }
            if let Some(matrix) = &self.low {
                if code_fits(matrix, scale, width, height) {
                    return Some((matrix, scale));
                }
            }
            scale -= 1;
        }
        None
    }
}

/// The pixel in column `x` and row `y` of a code with its quiet zone is dark.
pub open spec fn dark_pixel(code: QrView, scale: int, x: int, y: int) -> bool {
    let (mx, my) = (x / scale - QUIET, y / scale - QUIET);
    0 <= mx < code.width && 0 <= my < code.width && code.module(mx, my)
}

/// The pixel in column `x` and row `y` of a code with its quiet zone is dark.
pub fn qr_dark(matrix: &QrMatrix, scale: usize, x: usize, y: usize) -> (dark: bool)
    requires
        matrix@.square(),
        scale > 0,
    ensures
        dark == dark_pixel(matrix@, scale as int, x as int, y as int),
{
    let mx = x / scale;
    let my = y / scale;
    if mx < QUIET || my < QUIET || mx - QUIET >= matrix.width || my - QUIET >= matrix.width {
        return false;
    }
    let (column, row) = (mx - QUIET, my - QUIET);
    proof {
        let (r, w) = (row as int, matrix.width as int);
        assert(0 <= r * w && r * w + w <= w * w) by (nonlinear_arith)
            requires
                0 <= r < w,
        ;
        assert(w * w == matrix.modules.len());
    }
    matrix.modules[row * matrix.width + column]
}

/// The character that shows two pixels, one above the other.
pub open spec fn half_block(top: bool, bottom: bool) -> char {
    if top && bottom {
        '\u{2588}'
    } else if top {
        '\u{2580}'
    } else if bottom {
        '\u{2584}'
    } else {
        ' '
    }
}

/// Row `row` of the screen, as a text: two rows of pixels of a code.
pub open spec fn glyph_row(code: QrView, scale: int, row: int) -> Seq<char> {
    Seq::new(
        side(code.width as int, scale) as nat,
        |x: int|
            half_block(
                dark_pixel(code, scale, x, row * 2),
                dark_pixel(code, scale, x, row * 2 + 1),
            ),
    )
}

/// All rows of the screen that show a code.
pub open spec fn glyph_rows(code: QrView, scale: int) -> Seq<Seq<char>> {
    Seq::new(
        half_rows(side(code.width as int, scale)) as nat,
        |row: int| glyph_row(code, scale, row),
    )
}

/// Draws one row of the screen.
fn draw_row(matrix: &QrMatrix, scale: usize, row: usize) -> (text: String)
    requires
        matrix@.square(),
        1 <= scale <= 3,
        row < half_rows(side(matrix.width as int, scale as int)),
    ensures
        text@ == glyph_row(matrix@, scale as int, row as int),
{
    let pixels = side_pixels(matrix, scale);
    let mut text = String::new();
    let mut x: usize = 0;
    while x < pixels
        invariant
            matrix@.square(),
            1 <= scale <= 3,
            pixels == side(matrix.width as int, scale as int),
            pixels < usize::MAX,
            row < half_rows(pixels as int),
            x <= pixels,
            text@ =~= glyph_row(matrix@, scale as int, row as int).take(x as int),
        decreases pixels - x,
    {
        let top = qr_dark(matrix, scale, x, row * 2);
        let bottom = qr_dark(matrix, scale, x, row * 2 + 1);
        let glyph = if top && bottom {
            '\u{2588}'
        } else if top {
            '\u{2580}'
        } else if bottom {
            '\u{2584}'
        } else {
            ' '
        };
        text.push(glyph);
        x += 1;
    }
    assert(text@ =~= glyph_row(matrix@, scale as int, row as int));
    text
}

/// Draws a code with its quiet zone, two rows of pixels to one row of the
/// screen.
pub fn draw_code(matrix: &QrMatrix, scale: usize) -> (rows: Vec<String>)
    requires
        matrix@.square(),
        1 <= scale <= 3,
    ensures
        string_views(rows@) == glyph_rows(matrix@, scale as int),
{
    let count = (side_pixels(matrix, scale) + 1) / 2;
    let mut rows: Vec<String> = Vec::new();
    let mut row: usize = 0;
    while row < count
        invariant
            matrix@.square(),
            1 <= scale <= 3,
            count == half_rows(side(matrix.width as int, scale as int)),
            row <= count,
            string_views(rows@) =~= glyph_rows(matrix@, scale as int).take(row as int),
        decreases count - row,
    {
        let ghost before = string_views(rows@);
        let text = draw_row(matrix, scale, row);
        let ghost drawn = text@;
        rows.push(text);
        assert(string_views(rows@) =~= before.push(drawn));
        row += 1;
    }
    assert(string_views(rows@) =~= glyph_rows(matrix@, scale as int));
    rows
}

// ---------------------------------------------------------------------------
// Laws
// ---------------------------------------------------------------------------

/// A code is drawn inside a light border of four modules on every side: no pixel
/// of the border is dark, and every pixel inside it shows the module that it
/// belongs to.
pub proof fn law_quiet_zone_of_four_modules(code: QrView, scale: int, x: int, y: int)
    requires
        scale > 0,
        0 <= x < side(code.width as int, scale),
        0 <= y < side(code.width as int, scale),
    ensures
        ({
            let (border, end) = (4 * scale, side(code.width as int, scale) - 4 * scale);
            if border <= x < end && border <= y < end {
                dark_pixel(code, scale, x, y) == code.module(
                    (x - border) / scale,
                    (y - border) / scale,
                )
            } else {
                !dark_pixel(code, scale, x, y)
            }
        }),
{
    lemma_module_of(code.width as int, scale, x);
    lemma_module_of(code.width as int, scale, y);
}

/// The modules of a code are kept from left to right and then from top to bottom.
pub proof fn law_modules_are_kept_row_by_row(code: QrView, x: int, y: int)
    ensures
        code.module(x, 0) == code.modules[x],
        code.module(x, y) == code.modules[x + y * code.width],
{
}

/// Which module a pixel belongs to.
proof fn lemma_module_of(width: int, scale: int, x: int)
    requires
        scale > 0,
        width >= 0,
        x >= 0,
    ensures
        4 * scale <= x < side(width, scale) - 4 * scale <==> 0 <= x / scale - QUIET < width,
        x / scale - QUIET == (x - 4 * scale) / scale,
{
    let q = x / scale;
    assert(side(width, scale) - 4 * scale == (width + 4) * scale) by (nonlinear_arith)
        requires
            side(width, scale) == (width + 8) * scale,
    ;
    assert(4 * scale <= x <==> 4 <= q) by (nonlinear_arith)
        requires
            q == x / scale,
            scale > 0,
    ;
    assert(x < (width + 4) * scale <==> q < width + 4) by (nonlinear_arith)
        requires
            q == x / scale,
            scale > 0,
    ;
    assert((x - 4 * scale) / scale == q - 4) by (nonlinear_arith)
        requires
            q == x / scale,
            scale > 0,
    ;
}

/// The four characters differ, so both pixels can be read back from the screen.
pub proof fn law_half_blocks_show_both_pixels(a: bool, b: bool, c: bool, d: bool)
    requires
        half_block(a, b) == half_block(c, d),
    ensures
        a == c,
        b == d,
{
}

/// A code that fits at some scale up to `most` is shown; the code that is shown
/// fits, is one of the two codes, and no code fits at a larger scale.
proof fn lemma_best_fit(codes: CachedQrView, columns: int, rows: int, most: int)
    requires
        most >= 0,
    ensures
        match best_fit(codes, columns, rows, most) {
            Some((code, scale)) => {
                &&& 1 <= scale <= most
                &&& fits(code.width as int, scale, columns, rows)
                &&& codes.medium == Some(code) || codes.low == Some(code)
                &&& codes.medium is Some && fits(codes.medium->0.width as int, scale, columns, rows)
                    ==> code == codes.medium->0
                &&& forall|larger: int| #[trigger]
                    unfit(codes, columns, rows, larger) || larger <= scale || most < larger
            },
            None => forall|scale: int| #[trigger]
                unfit(codes, columns, rows, scale) || scale < 1 || most < scale,
        },
    decreases most,
{
    if most > 0 {
        lemma_best_fit(codes, columns, rows, most - 1);
    }
}

/// Neither code fits at `scale`.
pub open spec fn unfit(codes: CachedQrView, columns: int, rows: int, scale: int) -> bool {
    &&& codes.medium is Some ==> !fits(codes.medium->0.width as int, scale, columns, rows)
    &&& codes.low is Some ==> !fits(codes.low->0.width as int, scale, columns, rows)
}

/// A code is shown whenever one of the two fits at a scale of one, two or three.
/// The code that is shown fits at its scale, no code fits at a larger one, and
/// the code with low correction is only shown where the other does not fit.
pub proof fn law_pick_prefers_scale_and_then_correction(
    codes: CachedQrView,
    columns: int,
    rows: int,
)
    ensures
        match picked(codes, columns, rows) {
            Some((code, scale)) => {
                &&& 1 <= scale <= 3
                &&& fits(code.width as int, scale, columns, rows)
                &&& forall|larger: int|
                    scale < larger <= 3 ==> #[trigger] unfit(codes, columns, rows, larger)
                &&& codes.medium == Some(code) || (codes.low == Some(code) && (codes.medium is Some
                    ==> !fits(codes.medium->0.width as int, scale, columns, rows)))
            },
            None => forall|scale: int|
                1 <= scale <= 3 ==> #[trigger] unfit(codes, columns, rows, scale),
        },
{
    lemma_best_fit(codes, columns, rows, 3);
}

} // verus!
