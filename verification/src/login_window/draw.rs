//! Drawing of the sign-in window.

use crate::app_context::AppContext;
use crate::geometry::Rect;
use crate::login_model::synced;
use crate::login_phase::TdAuth;
use crate::login_screen::{
    body_lines, card_lines, card_title, error_lines, field_lines, form_hint, form_lines,
    header_texts, hint_line, instructions, law_card_of_short_ascii_lines, login_frame, menu_line,
    menu_lines, place_text_card, plain_line, plan_qr, qr_frame, selection, short_ascii, shown,
    unwrapped_card, LoginFrame, QrFrame, TextFrame,
};
use crate::login_window::LoginWindow;
use crate::qr::draw_code;
use crate::style::{active_style, alarming, error_style, hint_style, plain_style, Style};
use crate::text::{
    blank, line_views, line_widths, max_width, repeat_char, split_lines, string_views, styled,
    text_lines, text_width, Line, Span,
};
use vstd::prelude::*;

verus! {

/// A line of plain text.
fn plain_text(text: &str) -> (line: Line)
    ensures
        line@ == plain_line(text@),
{
    Line::styled(text.to_owned(), plain_style())
}

/// A line of key hints.
fn hint(text: &str) -> (line: Line)
    ensures
        line@ == hint_line(text@),
{
    Line::styled(text.to_owned(), hint_style())
}

/// The style of an entry or a field.
fn selection_style(selected: bool) -> (style: Style)
    ensures
        style == selection(selected),
{
    if selected {
        active_style()
    } else {
        plain_style()
    }
}

/// An entry of the menu.
fn menu_entry(selected: bool, label: &str) -> (line: Line)
    ensures
        line@ == menu_line(selected, label@),
{
    let mut text = if selected {
        " >  ".to_owned()
    } else {
        "    ".to_owned()
    };
    text.append(label);
    let mut spans: Vec<Span> = Vec::new();
    spans.push(Span { text, style: selection_style(selected) });
    let line = Line { spans, style: plain_style() };
    assert(line@ =~= menu_line(selected, label@));
    line
}

/// Adds an input field to `lines`.
fn push_field(lines: &mut Vec<Line>, label: &str, value: String, selected: bool)
    ensures
        line_views(final(lines)@) == line_views(old(lines)@) + field_lines(
            label@,
            value@,
            selected,
        ),
{
    let ghost before = line_views(lines@);
    let ghost shown_value = value@;
    let mut spans: Vec<Span> = Vec::new();
    let cursor = if selected {
        "█"
    } else {
        ""
    };
    spans.push(Span { text: " ".to_owned(), style: plain_style() });
    spans.push(Span { text: value, style: plain_style() });
    spans.push(Span { text: cursor.to_owned(), style: plain_style() });
    let input = Line { spans, style: selection_style(selected) };
    assert(input@ =~= field_lines(label@, shown_value, selected)[1]);
    lines.push(plain_text(label));
    lines.push(input);
    assert(line_views(lines@) =~= before + field_lines(label@, shown_value, selected));
}

/// What an input field shows of its value.
fn shown_value(state: &TdAuth, value: &String) -> (text: String)
    ensures
        text@ == shown(state@, value@),
{
    if matches!(state, TdAuth::WaitPassword) {
        repeat_char('•', value.as_str().unicode_len())
    } else {
        value.clone()
    }
}

/// The lines of an error message.
pub fn message_lines(error: &str) -> (lines: Vec<Line>)
    ensures
        line_views(lines@) == error_lines(Some(error@)),
{
    let parts = split_lines(error);
    let mut lines: Vec<Line> = Vec::new();
    lines.push(Line::blank());
    let ghost texts = text_lines(error@);
    let ghost wanted = error_lines(Some(error@));
    assert(line_views(lines@) =~= wanted.take(1));
    let mut i: usize = 0;
    while i < parts.len()
        invariant
            i <= parts@.len(),
            texts == string_views(parts@),
            wanted == seq![blank()] + texts.map_values(
                |line: Seq<char>| styled(line, alarming()),
            ),
            line_views(lines@) =~= wanted.take(i + 1),
        decreases parts.len() - i,
    {
        let ghost before = line_views(lines@);
        let line = Line::styled(parts[i].clone(), error_style());
        let ghost added = line@;
        lines.push(line);
        assert(line_views(lines@) =~= before.push(added));
        assert(texts[i as int] == parts@[i as int]@);
        assert(added == wanted[i + 1]);
        i += 1;
    }
    assert(wanted.take(wanted.len() as int) =~= wanted);
    lines
}

impl LoginWindow {
    /// The lines of the error message, none when there is no error.
    fn error_lines(&self) -> (lines: Vec<Line>)
        ensures
            line_views(lines@) == error_lines(self@.error),
    {
        match &self.error {
            Some(error) => message_lines(error.as_str()),
            None => {
                let lines: Vec<Line> = Vec::new();
                assert(line_views(lines@) =~= Seq::empty());
                lines
            },
        }
    }

    /// The lines of the menu.
    fn menu_lines(&self) -> (lines: Vec<Line>)
        ensures
            line_views(lines@) == menu_lines(self@),
    {
        let mut lines: Vec<Line> = Vec::new();
        if self.busy {
            lines.push(plain_text("Requesting a QR code…"));
            lines.push(hint("q quits"));
        } else {
            lines.push(plain_text("Choose how to sign in"));
            lines.push(Line::blank());
            lines.push(menu_entry(self.qr_selected, "Log in with a QR code"));
            lines.push(menu_entry(!self.qr_selected, "Log in with a phone number"));
            lines.push(Line::blank());
            lines.push(hint("↑↓ move    enter select    q quit"));
        }
        assert(line_views(lines@) =~= menu_lines(self@));
        lines
    }

    /// The lines of a step with input.
    fn form_lines(&self) -> (lines: Vec<Line>)
        ensures
            line_views(lines@) == form_lines(self@),
    {
        let (title, label) = match self.state {
            TdAuth::WaitPhoneNumber => ("Phone number", "Include the country code"),
            TdAuth::WaitCode => ("Verification code", "Code from Telegram"),
            TdAuth::WaitPassword => ("Cloud password", "Two-step verification"),
            TdAuth::WaitEmail => ("Email address", "Telegram asked for an email"),
            TdAuth::WaitEmailCode => ("Email code", "Code sent to your email"),
            _ => ("New account", "First name"),
        };
        let registration = matches!(self.state, TdAuth::WaitRegistration);
        let mut lines: Vec<Line> = Vec::new();
        lines.push(plain_text(title));
        lines.push(Line::blank());
        assert(line_views(lines@) =~= seq![plain_line(title@), blank()]);
        push_field(&mut lines, label, shown_value(&self.state, &self.text), !self.on_last);
        if registration {
            push_field(&mut lines, "Last name", shown_value(&self.state, &self.last), self.on_last);
        }
        let ghost fields = line_views(lines@);
        lines.push(Line::blank());
        lines.push(
            hint(
                if registration {
                    "tab switches fields    enter continues    ctrl-c quits"
                } else if self.phone_entry {
                    "enter submits    esc back    ctrl-c quits"
                } else {
                    "enter submits    ctrl-c quits"
                },
            ),
        );
        assert(line_views(lines@) =~= fields + seq![blank(), hint_line(form_hint(self@))]);
        assert(line_views(lines@) =~= form_lines(self@));
        lines
    }

    /// The lines of the window. A password shows as bullets.
    pub fn lines(&self) -> (lines: Vec<Line>)
        ensures
            line_views(lines@) == card_lines(self@),
    {
        let mut lines: Vec<Line> = Vec::new();
        match self.state {
            TdAuth::Starting => {
                lines.push(plain_text("Connecting to Telegram…"));
                lines.push(hint("q quits"));
                assert(line_views(lines@) =~= body_lines(self@));
            },
            TdAuth::WaitOtherDevice { .. } => {
                lines.push(plain_text("Make the terminal larger to sign in."));
                lines.push(hint("q quits"));
                assert(line_views(lines@) =~= body_lines(self@));
            },
            TdAuth::Ready => {
                assert(line_views(lines@) =~= body_lines(self@));
            },
            TdAuth::WaitPhoneNumber => {
                lines = if self.phone_entry {
                    self.form_lines()
                } else {
                    self.menu_lines()
                };
            },
            _ => {
                lines = self.form_lines();
            },
        }
        let ghost body = line_views(lines@);
        let mut errors = self.error_lines();
        let ghost tail = line_views(errors@);
        lines.append(&mut errors);
        assert(line_views(lines@) =~= body + tail);
        lines
    }

    /// The title in the border of the card.
    fn title(&self) -> (title: &'static str)
        ensures
            title@ == card_title(self@.state),
    {
        if matches!(self.state, TdAuth::WaitOtherDevice { .. }) {
            " Sign in · q quits "
        } else {
            " Sign in "
        }
    }

    /// The card with the QR code, if there is one and it fits on `area` together
    /// with the error message.
    pub fn draw_qr(&self, area: Rect) -> (frame: Option<QrFrame>)
        requires
            self@.well_formed(),
            area.on_screen(),
        ensures
            match frame {
                Some(drawn) => qr_frame(self@, area) == Some(drawn@),
                None => qr_frame(self@, area) is None,
            },
    {
        let codes = match &self.qr {
            Some(codes) => codes,
            None => {
                return None;
            },
        };
        let errors = self.error_lines();
        let error_width = max_width(&line_widths(&errors));
        let instructions = "Settings → Devices → Link Desktop Device";
        match plan_qr(codes, area, errors.len(), error_width, text_width(instructions)) {
            None => None,
            Some((matrix, scale, layout)) => {
                let mut headers: Vec<&'static str> = Vec::new();
                if layout.headers == 2 {
                    headers.push("Scan with Telegram on your phone");
                    headers.push(instructions);
                } else if layout.headers == 1 {
                    headers.push("Scan with Telegram");
                }
                let frame = QrFrame {
                    layout,
                    title: self.title(),
                    headers,
                    rows: draw_code(matrix, scale),
                    errors,
                };
                assert(frame@.headers =~= header_texts(layout.headers as int));
                Some(frame)
            },
        }
    }

    /// Says what is to be drawn on `area`: the QR code where one is shown and
    /// fits, text otherwise.
    pub fn draw(&mut self, app_context: &AppContext, area: Rect) -> (frame: LoginFrame)
        requires
            old(self)@.well_formed(),
            area.on_screen(),
        ensures
            final(self)@ == synced(old(self)@, app_context@.td_auth),
            frame@ == login_frame(final(self)@, area),
            final(self)@.well_formed(),
            frame matches LoginFrame::Text(text) ==> short_ascii(card_lines(final(self)@), area)
                ==> text.card == unwrapped_card(card_lines(final(self)@).len(), area),
    {
        self.sync_auth(app_context);
        if area.is_empty() {
            return LoginFrame::Empty;
        }
        if matches!(self.state, TdAuth::WaitOtherDevice { .. }) {
            if let Some(frame) = self.draw_qr(area) {
                return LoginFrame::Qr(frame);
            }
        }
        let lines = self.lines();
        proof {
            if short_ascii(card_lines(self@), area) {
                law_card_of_short_ascii_lines(self@, area);
            }
        }
        let (card, inner) = place_text_card(area, &line_widths(&lines));
        LoginFrame::Text(TextFrame { card, inner, title: self.title(), lines })
    }
}

} // verus!
