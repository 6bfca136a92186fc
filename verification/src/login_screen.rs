//! What the sign-in window shows: its lines of text, its QR code and where they
//! go.

use crate::geometry::{at_least_zero, centered, greater, inside_border, lesser, place_card, Rect};
use crate::login_model::LoginView;
use crate::login_phase::AuthView;
use crate::qr::{
    glyph_rows, half_rows, law_pick_prefers_scale_and_then_correction, picked, side, side_pixels,
    CachedQr, CachedQrView, QrMatrix, QrView,
};
use crate::style::{active, alarming, dimmed, plain, Style};
use crate::text::{
    ascii_line, blank, card_height, law_ascii_line_is_as_wide_as_its_characters,
    law_lines_that_fit_take_one_row_each, line_views, lines_columns, repeated, spans_chars,
    string_views, styled, text_columns, text_lines, widest, wrapped_rows, Line, LineView, SpanView,
};
use vstd::prelude::*;

verus! {

/// Width of the card with its border.
pub const TEXT_W: u16 = 52;

// ---------------------------------------------------------------------------
// Lines
// ---------------------------------------------------------------------------

/// A line of plain text.
pub open spec fn plain_line(text: Seq<char>) -> LineView {
    styled(text, plain())
}

/// A line of key hints.
pub open spec fn hint_line(text: Seq<char>) -> LineView {
    styled(text, dimmed())
}

/// The style of an entry or a field.
pub open spec fn selection(selected: bool) -> Style {
    if selected {
        active()
    } else {
        plain()
    }
}

/// An entry of the menu.
pub open spec fn menu_line(selected: bool, label: Seq<char>) -> LineView {
    let mark = if selected {
        " >  "@
    } else {
        "    "@
    };
    LineView {
        spans: seq![SpanView { text: mark + label, style: selection(selected) }],
        style: plain(),
    }
}

/// What an input field shows of its value: a password as bullets, anything else
/// as it is.
pub open spec fn shown(state: AuthView, value: Seq<char>) -> Seq<char> {
    if state is WaitPassword {
        repeated('•', value.len())
    } else {
        value
    }
}

/// An input field: its label, and its value with the cursor when it is selected.
pub open spec fn field_lines(label: Seq<char>, value: Seq<char>, selected: bool) -> Seq<LineView> {
    let cursor = if selected {
        "█"@
    } else {
        ""@
    };
    seq![
        plain_line(label),
        LineView {
            spans: seq![
                SpanView { text: " "@, style: plain() },
                SpanView { text: value, style: plain() },
                SpanView { text: cursor, style: plain() },
            ],
            style: selection(selected),
        },
    ]
}

/// The title of a step and the label of its field.
pub open spec fn form_texts(state: AuthView) -> (Seq<char>, Seq<char>) {
    match state {
        AuthView::WaitPhoneNumber => ("Phone number"@, "Include the country code"@),
        AuthView::WaitCode => ("Verification code"@, "Code from Telegram"@),
        AuthView::WaitPassword => ("Cloud password"@, "Two-step verification"@),
        AuthView::WaitEmail => ("Email address"@, "Telegram asked for an email"@),
        AuthView::WaitEmailCode => ("Email code"@, "Code sent to your email"@),
        _ => ("New account"@, "First name"@),
    }
}

/// The key hints of a step with input.
pub open spec fn form_hint(w: LoginView) -> Seq<char> {
    if w.state is WaitRegistration {
        "tab switches fields    enter continues    ctrl-c quits"@
    } else if w.phone_entry {
        "enter submits    esc back    ctrl-c quits"@
    } else {
        "enter submits    ctrl-c quits"@
    }
}

/// The lines of a step with input.
pub open spec fn form_lines(w: LoginView) -> Seq<LineView> {
    let (title, label) = form_texts(w.state);
    let first = field_lines(label, shown(w.state, w.text), !w.on_last);
    let fields = if w.state is WaitRegistration {
        first + field_lines("Last name"@, shown(w.state, w.last), w.on_last)
    } else {
        first
    };
    seq![plain_line(title), blank()] + fields + seq![blank(), hint_line(form_hint(w))]
}

/// The lines of the menu.
pub open spec fn menu_lines(w: LoginView) -> Seq<LineView> {
    if w.busy {
        seq![plain_line("Requesting a QR code…"@), hint_line("q quits"@)]
    } else {
        seq![
            plain_line("Choose how to sign in"@),
            blank(),
            menu_line(w.qr_selected, "Log in with a QR code"@),
            menu_line(!w.qr_selected, "Log in with a phone number"@),
            blank(),
            hint_line("↑↓ move    enter select    q quit"@),
        ]
    }
}

/// The lines of the window, without an error.
pub open spec fn body_lines(w: LoginView) -> Seq<LineView> {
    match w.state {
        AuthView::Starting => seq![
            plain_line("Connecting to Telegram…"@),
            hint_line("q quits"@),
        ],
        AuthView::WaitOtherDevice { .. } => seq![
            plain_line("Make the terminal larger to sign in."@),
            hint_line("q quits"@),
        ],
        AuthView::Ready => Seq::empty(),
        _ => if w.menu() {
            menu_lines(w)
        } else {
            form_lines(w)
        },
    }
}

/// The lines of an error message: an empty line ahead of them.
pub open spec fn error_lines(error: Option<Seq<char>>) -> Seq<LineView> {
    match error {
        Some(message) => seq![blank()] + text_lines(message).map_values(
            |line: Seq<char>| styled(line, alarming()),
        ),
        None => Seq::empty(),
    }
}

/// The lines of the window.
pub open spec fn card_lines(w: LoginView) -> Seq<LineView> {
    body_lines(w) + error_lines(w.error)
}

/// The title in the border of the card.
pub open spec fn card_title(state: AuthView) -> Seq<char> {
    if state is WaitOtherDevice {
        " Sign in · q quits "@
    } else {
        " Sign in "@
    }
}

// ---------------------------------------------------------------------------
// The card with text
// ---------------------------------------------------------------------------

/// A card with lines of text, wrapped to the room inside its border.
pub struct TextFrame {
    pub card: Rect,
    pub inner: Rect,
    pub title: &'static str,
    pub lines: Vec<Line>,
}

/// What a card with text holds.
#[verifier::ext_equal]
pub struct TextFrameView {
    pub card: Rect,
    pub inner: Rect,
    pub title: Seq<char>,
    pub lines: Seq<LineView>,
}

impl View for TextFrame {
    type V = TextFrameView;

    open spec fn view(&self) -> TextFrameView {
        TextFrameView {
            card: self.card,
            inner: self.inner,
            title: self.title@,
            lines: line_views(self.lines@),
        }
    }
}

/// The columns that text is wrapped at in a card on `area`.
pub open spec fn wrap_columns(area: Rect) -> int {
    greater(lesser(TEXT_W as int, area.width as int) - 2, 1)
}

/// The card on `area` around lines of the given widths.
pub open spec fn text_card(area: Rect, widths: Seq<usize>) -> Rect {
    centered(
        lesser(TEXT_W as int, area.width as int),
        lesser(wrapped_rows(widths, wrap_columns(area)) + 2, area.height as int),
        area,
    )
}

/// The card with the lines of the window.
pub open spec fn text_frame(w: LoginView, area: Rect) -> TextFrameView {
    let card = text_card(area, lines_columns(card_lines(w)));
    TextFrameView {
        card,
        inner: inside_border(card),
        title: card_title(w.state),
        lines: card_lines(w),
    }
}

/// All lines are printable ASCII and fit into a card on `area`.
pub open spec fn short_ascii(lines: Seq<LineView>, area: Rect) -> bool {
    forall|i: int|
        0 <= i < lines.len() ==> {
            let line = #[trigger] lines[i];
            ascii_line(line) && spans_chars(line.spans) <= wrap_columns(area)
        }
}

/// The card on `area` around `count` lines that take one row each.
pub open spec fn unwrapped_card(count: nat, area: Rect) -> Rect {
    centered(
        lesser(TEXT_W as int, area.width as int),
        lesser(count as int + 2, area.height as int),
        area,
    )
}

/// A card whose lines are printable ASCII and fit into it is two rows higher than it
/// has lines, as far as `area` allows.
pub proof fn law_card_of_short_ascii_lines(w: LoginView, area: Rect)
    requires
        short_ascii(card_lines(w), area),
    ensures
        text_frame(w, area).card == unwrapped_card(card_lines(w).len(), area),
{
    let lines = card_lines(w);
    let widths = lines_columns(lines);
    assert forall|i: int| 0 <= i < widths.len() implies #[trigger] widths[i] <= wrap_columns(
        area,
    ) by {
        law_ascii_line_is_as_wide_as_its_characters(lines[i]);
    }
    law_lines_that_fit_take_one_row_each(widths, wrap_columns(area));
}

/// Places the card on `area` around lines of the given widths: the card and the
/// room inside its border.
pub fn place_text_card(area: Rect, widths: &Vec<usize>) -> (placed: (Rect, Rect))
    requires
        area.on_screen(),
    ensures
        placed.0 == text_card(area, widths@),
        placed.1 == inside_border(placed.0),
{
    let width = if TEXT_W < area.width {
        TEXT_W
    } else {
        area.width
    };
    let inner = if width > 3 {
        (width - 2) as usize
    } else {
        1
    };
    place_card(width, card_height(widths, inner, area.height), area)
}

// ---------------------------------------------------------------------------
// The card with the QR code
// ---------------------------------------------------------------------------

/// The line that says where to find the scanner.
pub open spec fn instructions() -> Seq<char> {
    "Settings → Devices → Link Desktop Device"@
}

/// The lines above the code: two, one or none.
pub open spec fn header_texts(count: int) -> Seq<Seq<char>> {
    if count == 2 {
        seq!["Scan with Telegram on your phone"@, instructions()]
    } else if count == 1 {
        seq!["Scan with Telegram"@]
    } else {
        Seq::empty()
    }
}

/// Where the parts of the card with the QR code go.
#[derive(Clone, Copy, Debug, PartialEq, Eq, Structural)]
pub struct QrLayout {
    pub card: Rect,
    pub inner: Rect,
    /// How many lines stand above the code.
    pub headers: u16,
    /// First column and first row of the code with its quiet zone.
    pub left: u16,
    pub top: u16,
    pub error_area: Rect,
}

/// Where the parts of the card go on `area` for a code of `pixels` pixels a side,
/// `errors` error lines of at most `error_width` columns, and instructions of
/// `instructions_width` columns. As many header lines are shown as fit.
pub open spec fn qr_layout(
    area: Rect,
    pixels: int,
    errors: int,
    error_width: int,
    instructions_width: int,
) -> QrLayout {
    let (width, height) = (at_least_zero(area.width - 2), at_least_zero(area.height - 2));
    let rows = half_rows(pixels);
    let spare = height - errors - rows;
    let headers = if spare >= 2 && width >= instructions_width {
        2int
    } else if spare >= 1 {
        1
    } else {
        0
    };
    let field = greater(greater(pixels, error_width), lesser(TEXT_W - 2, width));
    let card = centered(field + 2, headers + rows + errors + 2, area);
    let inner = inside_border(card);
    QrLayout {
        card,
        inner,
        headers: headers as u16,
        left: (inner.x + (field - pixels) / 2) as u16,
        top: (inner.y + headers) as u16,
        error_area: Rect {
            x: inner.x,
            y: (inner.y + headers + rows) as u16,
            width: inner.width,
            height: (inner.height - headers - rows) as u16,
        },
    }
}

/// The code that is shown on `area`, its scale and where it goes, or nothing when
/// neither the errors nor a code fit.
pub open spec fn qr_plan(
    codes: CachedQrView,
    area: Rect,
    errors: int,
    error_width: int,
    instructions_width: int,
) -> Option<(QrView, int, QrLayout)> {
    let (width, height) = (at_least_zero(area.width - 2), at_least_zero(area.height - 2));
    if errors > height || error_width > width {
        None
    } else {
        match picked(codes, width, height - errors) {
            None => None,
            Some((code, scale)) => Some(
                (
                    code,
                    scale,
                    qr_layout(
                        area,
                        side(code.width as int, scale),
                        errors,
                        error_width,
                        instructions_width,
                    ),
                ),
            ),
        }
    }
}

/// The code that fits on `area` lies inside the card with its quiet zone, below
/// the headers and above the errors, and the card lies inside `area`.
pub proof fn law_code_is_entirely_in_bounds(
    codes: CachedQrView,
    area: Rect,
    errors: int,
    error_width: int,
    instructions_width: int,
)
    requires
        area.on_screen(),
        0 <= errors,
        0 <= error_width,
    ensures
        match qr_plan(codes, area, errors, error_width, instructions_width) {
            None => true,
            Some((code, scale, layout)) => {
                let pixels = side(code.width as int, scale);
                let inner = layout.inner;
                &&& layout.card.within(area)
                &&& inner.within(layout.card)
                &&& inner.x == layout.card.x + 1 && inner.y == layout.card.y + 1
                &&& inner.x + inner.width + 1 == layout.card.x + layout.card.width
                &&& inner.y + inner.height + 1 == layout.card.y + layout.card.height
                // The code lies in the room inside the border, between headers and errors.
                &&& inner.x <= layout.left
                &&& layout.left + pixels <= inner.x + inner.width
                &&& layout.top == inner.y + layout.headers
                &&& layout.top + half_rows(pixels) == layout.error_area.y
                &&& layout.error_area.y + errors == inner.y + inner.height
                // All error lines are shown at their full width.
                &&& layout.error_area.within(inner)
                &&& layout.error_area.height == errors
                &&& error_width <= layout.error_area.width == inner.width
                // The code is in the middle, and no larger than `area`.
                &&& 0 <= (inner.x + inner.width - (layout.left + pixels)) - (layout.left - inner.x)
                    <= 1
                &&& 0 < pixels <= area.width
                &&& 0 < half_rows(pixels) <= area.height
            },
        },
{
    let (width, height) = (at_least_zero(area.width - 2), at_least_zero(area.height - 2));
    if errors <= height && error_width <= width {
        law_pick_prefers_scale_and_then_correction(codes, width, height - errors);
        match picked(codes, width, height - errors) {
            None => {},
            Some((code, scale)) => {
                lemma_side_is_positive(code.width as int, scale);
            },
        }
    }
}

/// The quiet zone alone takes pixels.
proof fn lemma_side_is_positive(width: int, scale: int)
    requires
        width >= 0,
        scale >= 1,
    ensures
        side(width, scale) >= 8,
{
    assert((width + 8) * scale >= 8) by (nonlinear_arith)
        requires
            width >= 0,
            scale >= 1,
    ;
}

/// Finds the code to show on `area`, its scale and where it goes.
pub fn plan_qr(
    codes: &CachedQr,
    area: Rect,
    errors: usize,
    error_width: usize,
    instructions_width: usize,
) -> (plan: Option<(&QrMatrix, usize, QrLayout)>)
    requires
        codes@.square(),
        area.on_screen(),
    ensures
        match plan {
            Some((matrix, scale, layout)) => {
                &&& qr_plan(
                    codes@,
                    area,
                    errors as int,
                    error_width as int,
                    instructions_width as int,
                ) == Some((matrix@, scale as int, layout))
                &&& matrix@.square()
                &&& 1 <= scale <= 3
            },
            None => qr_plan(
                codes@,
                area,
                errors as int,
                error_width as int,
                instructions_width as int,
            ) is None,
        },
{
    let width = area.width.saturating_sub(2) as usize;
    let height = area.height.saturating_sub(2) as usize;
    if errors > height || error_width > width {
        return None;
    }
    let (matrix, scale) = match codes.pick(width, height - errors) {
        Some(choice) => choice,
        None => {
            return None;
        },
    };
    proof {
        law_code_is_entirely_in_bounds(
            codes@,
            area,
            errors as int,
            error_width as int,
            instructions_width as int,
        );
        law_pick_prefers_scale_and_then_correction(
            codes@,
            width as int,
            height - errors,
        );
        lemma_side_is_positive(matrix.width as int, scale as int);
    }
    let pixels = side_pixels(matrix, scale);
    let rows = (pixels + 1) / 2;
    let spare = height - errors - rows;
    let headers: usize = if spare >= 2 && width >= instructions_width {
        2
    } else if spare >= 1 {
        1
    } else {
        0
    };
    let text = if width < (TEXT_W - 2) as usize {
        width
    } else {
        (TEXT_W - 2) as usize
    };
    let wider = if error_width > pixels {
        error_width
    } else {
        pixels
    };
    let field = if text > wider {
        text
    } else {
        wider
    };
    let (card, inner) = place_card(
        (field + 2) as u16,
        (headers + rows + errors + 2) as u16,
        area,
    );
    let top = inner.y + headers as u16;
    let layout = QrLayout {
        card,
        inner,
        headers: headers as u16,
        left: inner.x + ((field - pixels) / 2) as u16,
        top,
        error_area: Rect {
            x: inner.x,
            y: top + rows as u16,
            width: inner.width,
            height: inner.height - headers as u16 - rows as u16,
        },
    };
    Some((matrix, scale, layout))
}

/// A card with a QR code: what stands above it, the code row by row, and the
/// error below it.
pub struct QrFrame {
    pub layout: QrLayout,
    pub title: &'static str,
    /// One line each, from the top of the room inside the border.
    pub headers: Vec<&'static str>,
    /// The rows of the code, from `layout.left` and `layout.top` on, black on white.
    pub rows: Vec<String>,
    pub errors: Vec<Line>,
}

/// What a card with a QR code holds.
#[verifier::ext_equal]
pub struct QrFrameView {
    pub layout: QrLayout,
    pub title: Seq<char>,
    pub headers: Seq<Seq<char>>,
    pub rows: Seq<Seq<char>>,
    pub errors: Seq<LineView>,
}

impl View for QrFrame {
    type V = QrFrameView;

    open spec fn view(&self) -> QrFrameView {
        QrFrameView {
            layout: self.layout,
            title: self.title@,
            headers: self.headers@.map_values(|text: &'static str| text@),
            rows: string_views(self.rows@),
            errors: line_views(self.errors@),
        }
    }
}

/// The card with the codes of the window, if it has any and one fits.
pub open spec fn qr_frame(w: LoginView, area: Rect) -> Option<QrFrameView> {
    let errors = error_lines(w.error);
    match w.qr {
        None => None,
        Some(codes) => match qr_plan(
            codes,
            area,
            errors.len() as int,
            widest(lines_columns(errors)),
            text_columns(instructions()) as int,
        ) {
            None => None,
            Some((code, scale, layout)) => Some(
                QrFrameView {
                    layout,
                    title: card_title(w.state),
                    headers: header_texts(layout.headers as int),
                    rows: glyph_rows(code, scale),
                    errors,
                },
            ),
        },
    }
}

// ---------------------------------------------------------------------------
// The window
// ---------------------------------------------------------------------------

/// What is drawn of the sign-in window.
pub enum LoginFrame {
    /// There is no room for anything.
    Empty,
    Text(TextFrame),
    Qr(QrFrame),
}

/// What a drawing of the sign-in window holds.
pub enum LoginFrameView {
    Empty,
    Text(TextFrameView),
    Qr(QrFrameView),
}

impl View for LoginFrame {
    type V = LoginFrameView;

    open spec fn view(&self) -> LoginFrameView {
        match self {
            LoginFrame::Empty => LoginFrameView::Empty,
            LoginFrame::Text(frame) => LoginFrameView::Text(frame@),
            LoginFrame::Qr(frame) => LoginFrameView::Qr(frame@),
        }
    }
}

/// What is drawn of the window on `area`: a QR code where one fits, text
/// otherwise.
pub open spec fn login_frame(w: LoginView, area: Rect) -> LoginFrameView {
    if area.width == 0 || area.height == 0 {
        LoginFrameView::Empty
    } else if w.state is WaitOtherDevice && qr_frame(w, area) is Some {
        LoginFrameView::Qr(qr_frame(w, area)->0)
    } else {
        LoginFrameView::Text(text_frame(w, area))
    }
}

} // verus!
