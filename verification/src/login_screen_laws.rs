//! What the user sees of the sign-in, step by step.

use crate::geometry::{at_least_zero, inside_border, law_border_is_one_cell_wide, Rect};
use crate::login_model::LoginView;
use crate::login_screen::{
    body_lines, card_lines, error_lines, field_lines, form_lines, login_frame, qr_layout, qr_plan,
    text_frame, LoginFrameView,
};
use crate::qr::{
    dark_pixel, fits, glyph_rows, half_rows, law_pick_prefers_scale_and_then_correction, picked,
    side, unfit, CachedQrView, QrView,
};
use crate::style::{Color, Style};
use crate::text::{
    lines_columns, repeated, text_columns, text_lines, widest, wrapped_rows, LineView,
};
use vstd::prelude::*;

verus! {

// ---------------------------------------------------------------------------
// Lines
// ---------------------------------------------------------------------------

/// The line shows `text` in one piece, without a style of its own on it.
pub open spec fn reads(line: LineView, text: Seq<char>) -> bool {
    &&& line.spans.len() == 1
    &&& line.spans[0].text == text
    &&& line.spans[0].style == (Style { fg: None::<Color>, bg: None::<Color>, dim: false })
}

/// The line is drawn as the terminal has it.
pub open spec fn unstyled(line: LineView) -> bool {
    line.style == (Style { fg: None::<Color>, bg: None::<Color>, dim: false })
}

/// The line is dimmed.
pub open spec fn hinted(line: LineView) -> bool {
    line.style == (Style { fg: None::<Color>, bg: None::<Color>, dim: true })
}

/// Black on white where it is selected, and as the terminal has it elsewhere.
pub open spec fn selected_style(selected: bool) -> Style {
    if selected {
        Style { fg: Some(Color::Black), bg: Some(Color::White), dim: false }
    } else {
        Style { fg: None::<Color>, bg: None::<Color>, dim: false }
    }
}

/// An error stands below everything else: an empty line, and each line of the message
/// in red. Without an error there is nothing.
pub proof fn law_error_stands_below_in_red(w: LoginView, message: Seq<char>)
    ensures
        w.error is None ==> card_lines(w) == body_lines(w),
        w.error == Some(message) ==> {
            let shown = card_lines(w);
            let (n, count) = (body_lines(w).len() as int, text_lines(message).len() as int);
            &&& shown.len() == n + 1 + count
            &&& shown.take(n) == body_lines(w)
            &&& shown[n].spans.len() == 0 && unstyled(shown[n])
            &&& forall|i: int|
                0 <= i < count ==> {
                    let line = #[trigger] shown[n + 1 + i];
                    &&& line.style == (Style { fg: Some(Color::Red), bg: None::<Color>, dim: false })
                    &&& text_lines(message)[i].len() > 0 ==> reads(line, text_lines(message)[i])
                    &&& text_lines(message)[i].len() == 0 ==> line.spans.len() == 0
                }
        },
        body_lines(w) == body_lines(LoginView { error: None, ..w }),
{
    let n = body_lines(w).len() as int;
    if w.error is None {
        assert(card_lines(w) =~= body_lines(w));
    }
    if w.error == Some(message) {
        let shown = card_lines(w);
        let errors = error_lines(Some(message));
        assert(shown.take(n) =~= body_lines(w));
        assert(shown[n] == errors[0]);
        assert forall|i: int| 0 <= i < text_lines(message).len() implies {
            let line = #[trigger] shown[n + 1 + i];
            &&& line.style == (Style { fg: Some(Color::Red), bg: None::<Color>, dim: false })
            &&& text_lines(message)[i].len() > 0 ==> reads(line, text_lines(message)[i])
            &&& text_lines(message)[i].len() == 0 ==> line.spans.len() == 0
        } by {
            assert(shown[n + 1 + i] == errors[1 + i]);
        }
    }
}

/// What each step with a field asks for.
pub proof fn law_what_each_step_asks_for(w: LoginView)
    requires
        w.editing(),
    ensures
        ({
            let shown = body_lines(w);
            &&& shown.len() == if w.state is WaitRegistration {
                8nat
            } else {
                6nat
            }
            &&& unstyled(shown[0]) && unstyled(shown[2])
            &&& shown[1].spans.len() == 0 && unstyled(shown[1])
            &&& w.state is WaitPhoneNumber ==> reads(shown[0], "Phone number"@) && reads(
                shown[2],
                "Include the country code"@,
            )
            &&& w.state is WaitCode ==> reads(shown[0], "Verification code"@) && reads(
                shown[2],
                "Code from Telegram"@,
            )
            &&& w.state is WaitPassword ==> reads(shown[0], "Cloud password"@) && reads(
                shown[2],
                "Two-step verification"@,
            )
            &&& w.state is WaitEmail ==> reads(shown[0], "Email address"@) && reads(
                shown[2],
                "Telegram asked for an email"@,
            )
            &&& w.state is WaitEmailCode ==> reads(shown[0], "Email code"@) && reads(
                shown[2],
                "Code sent to your email"@,
            )
            &&& w.state is WaitRegistration ==> reads(shown[0], "New account"@) && reads(
                shown[2],
                "First name"@,
            ) && reads(shown[4], "Last name"@) && unstyled(shown[4])
        }),
{
    lemma_texts_are_not_empty();
    let shown = body_lines(w);
    assert(shown == form_lines(w));
    if w.state is WaitRegistration {
        assert(shown.len() == 8);
    } else {
        assert(shown.len() == 6);
    }
}

/// None of the texts is empty.
proof fn lemma_texts_are_not_empty()
    ensures
        "Phone number"@.len() > 0,
        "Include the country code"@.len() > 0,
        "Verification code"@.len() > 0,
        "Code from Telegram"@.len() > 0,
        "Cloud password"@.len() > 0,
        "Two-step verification"@.len() > 0,
        "Email address"@.len() > 0,
        "Telegram asked for an email"@.len() > 0,
        "Email code"@.len() > 0,
        "Code sent to your email"@.len() > 0,
        "New account"@.len() > 0,
        "First name"@.len() > 0,
        "Last name"@.len() > 0,
        "tab switches fields    enter continues    ctrl-c quits"@.len() > 0,
        "enter submits    esc back    ctrl-c quits"@.len() > 0,
        "enter submits    ctrl-c quits"@.len() > 0,
        "q quits"@.len() > 0,
        "↑↓ move    enter select    q quit"@.len() > 0,
        "Connecting to Telegram…"@.len() > 0,
        "Make the terminal larger to sign in."@.len() > 0,
        "Requesting a QR code…"@.len() > 0,
        "Choose how to sign in"@.len() > 0,
{
    reveal_strlit("Phone number");
    reveal_strlit("Include the country code");
    reveal_strlit("Verification code");
    reveal_strlit("Code from Telegram");
    reveal_strlit("Cloud password");
    reveal_strlit("Two-step verification");
    reveal_strlit("Email address");
    reveal_strlit("Telegram asked for an email");
    reveal_strlit("Email code");
    reveal_strlit("Code sent to your email");
    reveal_strlit("New account");
    reveal_strlit("First name");
    reveal_strlit("Last name");
    reveal_strlit("tab switches fields    enter continues    ctrl-c quits");
    reveal_strlit("enter submits    esc back    ctrl-c quits");
    reveal_strlit("enter submits    ctrl-c quits");
    reveal_strlit("q quits");
    reveal_strlit("↑↓ move    enter select    q quit");
    reveal_strlit("Connecting to Telegram…");
    reveal_strlit("Make the terminal larger to sign in.");
    reveal_strlit("Requesting a QR code…");
    reveal_strlit("Choose how to sign in");
}

/// The line shows the input `value`, behind a space, with the cursor where it is
/// selected.
pub open spec fn shows_input(line: LineView, value: Seq<char>, selected: bool) -> bool {
    let plain = Style { fg: None::<Color>, bg: None::<Color>, dim: false };
    &&& line.spans.len() == 3
    &&& line.spans[0].text == " "@
    &&& line.spans[1].text == value
    &&& line.spans[2].text == if selected {
        "█"@
    } else {
        ""@
    }
    &&& forall|i: int| 0 <= i < 3 ==> (#[trigger] line.spans[i]).style == plain
    &&& line.style == selected_style(selected)
}

/// A field shows what was typed, character for character, and a password as many
/// bullets as it has characters. The cursor stands in the field that takes input.
pub proof fn law_fields_show_what_was_typed(w: LoginView, bullets: Seq<char>)
    requires
        w.editing(),
        bullets.len() == w.text.len(),
        forall|i: int| 0 <= i < bullets.len() ==> #[trigger] bullets[i] == '•',
    ensures
        !(w.state is WaitPassword) ==> shows_input(body_lines(w)[3], w.text, !w.on_last),
        w.state is WaitPassword ==> shows_input(body_lines(w)[3], bullets, !w.on_last),
        w.state is WaitRegistration ==> shows_input(body_lines(w)[5], w.last, w.on_last),
{
    let shown = body_lines(w);
    assert(shown == form_lines(w));
    if w.state is WaitPassword {
        assert(bullets =~= repeated('•', w.text.len()));
    }
    if w.state is WaitRegistration {
        assert(shown[5] == field_lines("Last name"@, w.last, w.on_last)[1]);
    }
}

/// The last line of a step with a field tells its keys.
pub proof fn law_field_hints(w: LoginView)
    requires
        w.editing(),
    ensures
        ({
            let shown = body_lines(w);
            let n = shown.len() as int;
            &&& hinted(shown[n - 1]) && shown[n - 2].spans.len() == 0 && unstyled(shown[n - 2])
            &&& w.state is WaitRegistration ==> reads(
                shown[n - 1],
                "tab switches fields    enter continues    ctrl-c quits"@,
            )
            &&& w.state is WaitPhoneNumber ==> reads(
                shown[n - 1],
                "enter submits    esc back    ctrl-c quits"@,
            )
            &&& !(w.state is WaitRegistration) && !w.phone_entry ==> reads(
                shown[n - 1],
                "enter submits    ctrl-c quits"@,
            )
        }),
{
    lemma_texts_are_not_empty();
    let shown = body_lines(w);
    assert(shown == form_lines(w));
    if w.state is WaitRegistration {
        assert(shown.len() == 8);
    } else {
        assert(shown.len() == 6);
    }
}

/// The menu names both ways to sign in and marks the one that is selected.
pub proof fn law_menu_marks_what_is_selected(w: LoginView)
    requires
        w.state is WaitPhoneNumber,
        !w.phone_entry,
    ensures
        ({
            let shown = body_lines(w);
            let (qr, phone) = (shown[2], shown[3]);
            &&& w.busy ==> {
                &&& shown.len() == 2
                &&& reads(shown[0], "Requesting a QR code…"@) && unstyled(shown[0])
                &&& reads(shown[1], "q quits"@) && hinted(shown[1])
            }
            &&& !w.busy ==> {
                &&& shown.len() == 6
                &&& reads(shown[0], "Choose how to sign in"@) && unstyled(shown[0])
                &&& shown[1].spans.len() == 0 && shown[4].spans.len() == 0
                &&& qr.spans.len() == 1 && phone.spans.len() == 1
                &&& unstyled(qr) && unstyled(phone)
                &&& qr.spans[0].style == selected_style(w.qr_selected)
                &&& phone.spans[0].style == selected_style(!w.qr_selected)
                &&& w.qr_selected ==> qr.spans[0].text == " >  "@ + "Log in with a QR code"@
                    && phone.spans[0].text == "    "@ + "Log in with a phone number"@
                &&& !w.qr_selected ==> qr.spans[0].text == "    "@ + "Log in with a QR code"@
                    && phone.spans[0].text == " >  "@ + "Log in with a phone number"@
                &&& reads(shown[5], "↑↓ move    enter select    q quit"@) && hinted(shown[5])
            }
        }),
{
    lemma_texts_are_not_empty();
}

/// What the steps without a field and without a menu say.
pub proof fn law_what_the_other_steps_say(w: LoginView)
    ensures
        ({
            let shown = body_lines(w);
            &&& w.state is Starting || w.state is WaitOtherDevice ==> {
                &&& shown.len() == 2
                &&& unstyled(shown[0]) && hinted(shown[1]) && reads(shown[1], "q quits"@)
            }
            &&& w.state is Starting ==> reads(shown[0], "Connecting to Telegram…"@)
            &&& w.state is WaitOtherDevice ==> reads(
                shown[0],
                "Make the terminal larger to sign in."@,
            )
            &&& w.state is Ready ==> shown.len() == 0
        }),
{
    lemma_texts_are_not_empty();
}

// ---------------------------------------------------------------------------
// Cards
// ---------------------------------------------------------------------------

/// The card with text is 52 columns wide and as high as its wrapped lines and its
/// border, as far as there is room, and stands in the middle.
pub proof fn law_text_card_fits_its_lines(w: LoginView, area: Rect)
    requires
        area.on_screen(),
    ensures
        ({
            let frame = text_frame(w, area);
            let card = frame.card;
            let columns = if card.width > 3 {
                card.width - 2
            } else {
                1
            };
            let rows = wrapped_rows(lines_columns(card_lines(w)), columns);
            &&& area.width >= 52 ==> card.width == 52
            &&& area.width < 52 ==> card.width == area.width
            &&& rows + 2 <= area.height ==> card.height == rows + 2
            &&& rows + 2 > area.height ==> card.height == area.height
            &&& 0 <= card.x - area.x <= area.x + area.width - (card.x + card.width) <= card.x
                - area.x + 1
            &&& 0 <= card.y - area.y <= area.y + area.height - (card.y + card.height) <= card.y
                - area.y + 1
            &&& frame.inner == inside_border(card)
            &&& frame.lines == card_lines(w)
            &&& w.state is WaitOtherDevice ==> frame.title == " Sign in · q quits "@
            &&& !(w.state is WaitOtherDevice) ==> frame.title == " Sign in "@
        }),
{
    let card = text_frame(w, area).card;
    let columns = if card.width > 3 {
        card.width - 2
    } else {
        1
    };
    lemma_rows_are_not_negative(lines_columns(card_lines(w)), columns);
}

/// Lines take no negative number of rows.
proof fn lemma_rows_are_not_negative(widths: Seq<usize>, inner: int)
    ensures
        wrapped_rows(widths, inner) >= 0,
    decreases widths.len(),
{
    if widths.len() > 0 {
        lemma_rows_are_not_negative(widths.drop_last(), inner);
    }
}

/// A code fits when its side with four light modules around it, at its scale, is no
/// wider than the columns, and no higher than twice the rows.
pub proof fn law_what_fits(width: int, scale: int, columns: int, rows: int)
    ensures
        side(width, scale) == (width + 8) * scale,
        fits(width, scale, columns, rows) <==> (width + 8) * scale <= columns && (width + 8)
            * scale <= 2 * rows,
        half_rows(side(width, scale)) * 2 == side(width, scale) || half_rows(side(width, scale))
            * 2 == side(width, scale) + 1,
{
}

/// A code of the link is shown wherever the error lines and one of the codes fit at a
/// scale of one, two or three, and nowhere else.
pub proof fn law_code_is_shown_wherever_one_fits(
    codes: CachedQrView,
    area: Rect,
    errors: int,
    error_width: int,
    instructions_width: int,
    scale: int,
)
    requires
        1 <= scale <= 3,
        0 <= errors,
        0 <= error_width,
    ensures
        ({
            let plan = qr_plan(codes, area, errors, error_width, instructions_width);
            let (width, height) = (area.width - 2, area.height - 2 - errors);
            let medium = codes.medium is Some && (codes.medium->0.width + 8) * scale <= width && (
            codes.medium->0.width + 8) * scale <= 2 * height;
            let low = codes.low is Some && (codes.low->0.width + 8) * scale <= width && (
            codes.low->0.width + 8) * scale <= 2 * height;
            &&& error_width <= width && height >= 0 && (medium || low) ==> plan is Some
            &&& plan matches Some((code, shown, layout)) ==> {
                &&& error_width <= width && height >= 0
                &&& 1 <= shown <= 3
                &&& (code.width + 8) * shown <= width && (code.width + 8) * shown <= 2 * height
                // No larger scale fits, and medium correction comes first.
                &&& medium || low ==> shown >= scale
                &&& codes.medium == Some(code) || codes.low == Some(code)
                &&& medium && shown == scale ==> code == codes.medium->0
            }
        }),
{
    let (width, height) = (at_least_zero(area.width - 2), at_least_zero(area.height - 2));
    let rows = height - errors;
    law_pick_prefers_scale_and_then_correction(codes, width, rows);
    let unfit_here = unfit(codes, width, rows, scale);
    if codes.medium is Some {
        lemma_side_grows(codes.medium->0.width as int, scale);
        law_what_fits(codes.medium->0.width as int, scale, width, rows);
    }
    if codes.low is Some {
        lemma_side_grows(codes.low->0.width as int, scale);
        law_what_fits(codes.low->0.width as int, scale, width, rows);
    }
    match picked(codes, width, rows) {
        None => {
            assert(unfit_here);
        },
        Some((code, shown)) => {
            lemma_side_grows(code.width as int, shown);
            law_what_fits(code.width as int, shown, width, rows);
            assert(scale > shown ==> unfit_here);
        },
    }
}

/// A code takes room.
proof fn lemma_side_grows(width: int, scale: int)
    requires
        width >= 0,
        scale >= 1,
    ensures
        (width + 8) * scale >= 8,
{
    assert((width + 8) * scale >= 8) by (nonlinear_arith)
        requires
            width >= 0,
            scale >= 1,
    ;
}

/// The card around a code is as wide as the widest of the code, the errors and fifty
/// columns of text, as far as there is room, and as high as its parts. As many of the
/// two header lines are shown as there are rows for, the second one only where the
/// instructions fit.
pub proof fn law_size_of_the_card_around_a_code(
    area: Rect,
    pixels: int,
    errors: int,
    error_width: int,
    instructions_width: int,
)
    requires
        area.on_screen(),
        area.width >= 2,
        area.height >= 2,
        0 < pixels <= area.width - 2,
        0 <= errors,
        0 <= error_width <= area.width - 2,
        (pixels + 1) / 2 + errors <= area.height - 2,
    ensures
        ({
            let layout = qr_layout(area, pixels, errors, error_width, instructions_width);
            let spare = area.height - 2 - errors - (pixels + 1) / 2;
            let field = layout.card.width - 2;
            &&& spare >= 2 && instructions_width <= area.width - 2 ==> layout.headers == 2
            &&& spare >= 2 && instructions_width > area.width - 2 ==> layout.headers == 1
            &&& spare == 1 ==> layout.headers == 1
            &&& spare == 0 ==> layout.headers == 0
            &&& layout.card.height == layout.headers + (pixels + 1) / 2 + errors + 2
            &&& field >= pixels && field >= error_width
            &&& area.width >= 52 ==> field >= 50
            &&& area.width < 52 ==> field == area.width - 2
            &&& field == pixels || field == error_width || field == 50 || field == area.width - 2
            &&& area.width >= 52 && pixels <= 50 && error_width <= 50 ==> field == 50
            &&& layout.inner == inside_border(layout.card)
            &&& 0 <= layout.card.x - area.x <= area.x + area.width - (layout.card.x
                + layout.card.width) <= layout.card.x - area.x + 1
            &&& 0 <= layout.card.y - area.y <= area.y + area.height - (layout.card.y
                + layout.card.height) <= layout.card.y - area.y + 1
        }),
{
    let layout = qr_layout(area, pixels, errors, error_width, instructions_width);
    law_border_is_one_cell_wide(layout.card);
}

/// On an empty area nothing is drawn. Elsewhere the code of a login link is drawn
/// where the window has codes and one fits, and text otherwise.
pub proof fn law_code_or_text_is_drawn(w: LoginView, area: Rect)
    ensures
        ({
            let drawn = login_frame(w, area);
            let errors = error_lines(w.error);
            let plan = qr_plan(
                w.qr->0,
                area,
                errors.len() as int,
                widest(lines_columns(errors)),
                text_columns("Settings → Devices → Link Desktop Device"@) as int,
            );
            let shows_code = w.state is WaitOtherDevice && w.qr is Some && plan is Some;
            &&& area.width == 0 || area.height == 0 ==> drawn is Empty
            &&& area.width > 0 && area.height > 0 && shows_code ==> {
                &&& drawn matches LoginFrameView::Qr(frame)
                &&& frame.layout == (plan->0).2
                &&& frame.rows == glyph_rows((plan->0).0, (plan->0).1)
                &&& frame.errors == errors
                &&& frame.title == " Sign in · q quits "@
                &&& frame.layout.headers == 2 ==> frame.headers == seq![
                    "Scan with Telegram on your phone"@,
                    "Settings → Devices → Link Desktop Device"@,
                ]
                &&& frame.layout.headers == 1 ==> frame.headers == seq!["Scan with Telegram"@]
                &&& frame.layout.headers == 0 ==> frame.headers.len() == 0
            }
            &&& area.width > 0 && area.height > 0 && !shows_code ==> {
                &&& drawn matches LoginFrameView::Text(frame)
                &&& frame == text_frame(w, area)
            }
        }),
{
}

/// A code is drawn with one character to each pixel of a row, and two rows of pixels
/// to each row of the screen: the upper one in the upper half of the character. No
/// pixel outside the code with its quiet zone is dark.
pub proof fn law_characters_show_pixels(code: QrView, scale: int, x: int, row: int)
    requires
        scale > 0,
        0 <= x < (code.width + 8) * scale,
        0 <= row,
        2 * row < (code.width + 8) * scale,
    ensures
        ({
            let rows = glyph_rows(code, scale);
            let (upper, lower) = (
                dark_pixel(code, scale, x, 2 * row),
                dark_pixel(code, scale, x, 2 * row + 1),
            );
            &&& row < rows.len()
            &&& 2 * rows.len() == (code.width + 8) * scale || 2 * rows.len() == (code.width + 8)
                * scale + 1
            &&& rows[row].len() == (code.width + 8) * scale
            &&& rows[row][x] == '█' <==> upper && lower
            &&& rows[row][x] == '▀' <==> upper && !lower
            &&& rows[row][x] == '▄' <==> !upper && lower
            &&& rows[row][x] == ' ' <==> !upper && !lower
            &&& 2 * row + 1 >= (code.width + 8) * scale ==> !lower
        }),
{
    let n = (code.width + 8) * scale;
    assert(side(code.width as int, scale) == n);
    if 2 * row + 1 >= n {
        let y = 2 * row + 1;
        assert(y / scale >= code.width + 8) by (nonlinear_arith)
            requires
                y >= (code.width + 8) * scale,
                scale > 0,
        ;
    }
}

} // verus!
