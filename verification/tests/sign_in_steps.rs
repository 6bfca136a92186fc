//! The steps of the sign-in: input, requests, errors and what is shown.

use tgt::action::{Action, Event, KeyCode, KeyModifiers, LoginRequest};
use tgt::app_context::AppContext;
use tgt::geometry::Rect;
use tgt::login_phase::TdAuth;
use tgt::login_screen::LoginFrame;
use tgt::login_window::{insert_accepted, normalize_phone, LoginWindow};
use tgt::style::{active_style, error_style, hint_style, plain_style};

const CONTROL: KeyModifiers = KeyModifiers { control: true };

fn context(td_auth: TdAuth) -> AppContext {
    AppContext {
        td_auth,
        focused: None,
        dirty: false,
        show_title_bar: true,
        show_status_bar: true,
    }
}

fn press(login: &mut LoginWindow, ctx: &mut AppContext, key: KeyCode) -> Option<Action> {
    login.on_key(ctx, key, KeyModifiers::none())
}

fn paste(login: &mut LoginWindow, ctx: &mut AppContext, text: &str) {
    assert!(login.handle_events(ctx, Some(Event::Paste(text.to_string()))).is_none());
}

/// The texts of the lines that are shown.
fn shown(login: &LoginWindow) -> Vec<String> {
    login
        .lines()
        .iter()
        .map(|line| line.spans.iter().map(|span| span.text.as_str()).collect())
        .collect()
}

fn accepted(state: TdAuth, text: &str) -> String {
    let mut input = String::new();
    insert_accepted(&state, &mut input, text);
    input
}

#[test]
fn each_step_takes_its_own_characters() {
    assert_eq!(accepted(TdAuth::WaitPhoneNumber, "a+1 (23)-4+5"), "+1 23-45");
    assert_eq!(accepted(TdAuth::WaitPhoneNumber, "-+1"), "-+1");
    assert_eq!(accepted(TdAuth::WaitPhoneNumber, "1+2"), "12");
    assert_eq!(accepted(TdAuth::WaitPhoneNumber, "++1"), "+1");
    assert_eq!(accepted(TdAuth::WaitCode, "12-ab é\n3"), "12ab3");
    assert_eq!(accepted(TdAuth::WaitEmailCode, " 9 Z"), "9Z");
    assert_eq!(accepted(TdAuth::WaitEmail, " a@b .c\u{3000}é\n"), "a@b.cé");
    assert_eq!(accepted(TdAuth::WaitPassword, " a\tb \u{85}c"), " ab c");
    assert_eq!(accepted(TdAuth::WaitRegistration, "Ann\u{7f} Lee\n"), "Ann Lee");
    for state in [
        TdAuth::Starting,
        TdAuth::WaitOtherDevice { link: String::new() },
        TdAuth::Ready,
    ] {
        assert_eq!(accepted(state, "abc 123"), "");
    }
}

#[test]
fn each_step_has_its_own_limit() {
    let long = "1".repeat(300);
    assert_eq!(accepted(TdAuth::WaitPhoneNumber, &long).len(), 32);
    assert_eq!(accepted(TdAuth::WaitCode, &long).len(), 16);
    assert_eq!(accepted(TdAuth::WaitEmailCode, &long).len(), 16);
    assert_eq!(accepted(TdAuth::WaitEmail, &long).len(), 128);
    assert_eq!(accepted(TdAuth::WaitPassword, &long).len(), 128);
    assert_eq!(accepted(TdAuth::WaitRegistration, &long).len(), 128);
}

#[test]
fn pasting_in_parts_is_pasting_at_once() {
    let mut input = String::new();
    insert_accepted(&TdAuth::WaitPhoneNumber, &mut input, "+4");
    insert_accepted(&TdAuth::WaitPhoneNumber, &mut input, "9+1 x2");
    assert_eq!(input, accepted(TdAuth::WaitPhoneNumber, "+49+1 x2"));
    assert_eq!(input, "+491 2");
}

#[test]
fn phone_numbers_are_reduced_to_what_is_dialled() {
    assert_eq!(normalize_phone("+1 (555) 010-99"), "+155501099");
    assert_eq!(normalize_phone("é abc"), "");
    assert_eq!(normalize_phone(""), "");
}

#[test]
fn phone_number_is_typed_and_submitted() {
    let mut ctx = context(TdAuth::WaitPhoneNumber);
    let mut login = LoginWindow::new();
    assert!(press(&mut login, &mut ctx, KeyCode::Down).is_none());
    assert!(ctx.dirty);
    assert!(!login.editing());
    assert!(press(&mut login, &mut ctx, KeyCode::Enter).is_none());
    assert!(login.editing());
    for c in "+1 23".chars() {
        assert!(press(&mut login, &mut ctx, KeyCode::Char(c)).is_none());
    }
    // Four characters to dial are too few.
    assert!(press(&mut login, &mut ctx, KeyCode::Enter).is_none());
    assert_eq!(shown(&login).last().unwrap(), "Include the country code, for example +1…");
    assert!(press(&mut login, &mut ctx, KeyCode::Char('4')).is_none());
    // Typing takes the complaint away.
    assert_eq!(shown(&login).last().unwrap(), "enter submits    esc back    ctrl-c quits");
    assert!(matches!(
        press(&mut login, &mut ctx, KeyCode::Enter),
        Some(Action::Login(LoginRequest::Phone(number))) if number == "+1234"
    ));
}

#[test]
fn backspace_takes_back_one_character() {
    let mut ctx = context(TdAuth::WaitCode);
    let mut login = LoginWindow::new();
    paste(&mut login, &mut ctx, "12");
    press(&mut login, &mut ctx, KeyCode::Char('3'));
    assert_eq!(shown(&login)[3], " 123█");
    press(&mut login, &mut ctx, KeyCode::Backspace);
    assert_eq!(shown(&login)[3], " 12█");
    for _ in 0..3 {
        press(&mut login, &mut ctx, KeyCode::Backspace);
    }
    assert_eq!(shown(&login)[3], " █");
}

#[test]
fn escape_leads_back_to_the_menu() {
    let mut ctx = context(TdAuth::WaitPhoneNumber);
    let mut login = LoginWindow::new();
    press(&mut login, &mut ctx, KeyCode::Down);
    press(&mut login, &mut ctx, KeyCode::Enter);
    paste(&mut login, &mut ctx, "+123");
    assert!(press(&mut login, &mut ctx, KeyCode::Esc).is_none());
    assert!(!login.editing());
    assert_eq!(shown(&login)[3], " >  Log in with a phone number");
    // The field is empty when it is entered again.
    press(&mut login, &mut ctx, KeyCode::Enter);
    assert_eq!(shown(&login)[3], " █");
    // In any other field Escape does nothing.
    ctx.td_auth = TdAuth::WaitCode;
    paste(&mut login, &mut ctx, "77");
    assert!(press(&mut login, &mut ctx, KeyCode::Esc).is_none());
    assert_eq!(shown(&login)[3], " 77█");
}

#[test]
fn menu_moves_between_its_entries() {
    let mut ctx = context(TdAuth::WaitPhoneNumber);
    let mut login = LoginWindow::new();
    press(&mut login, &mut ctx, KeyCode::Down);
    assert_eq!(shown(&login)[2], "    Log in with a QR code");
    press(&mut login, &mut ctx, KeyCode::Up);
    assert_eq!(
        shown(&login),
        vec![
            "Choose how to sign in",
            "",
            " >  Log in with a QR code",
            "    Log in with a phone number",
            "",
            "↑↓ move    enter select    q quit",
        ]
    );
    let lines = login.lines();
    assert_eq!(lines[2].spans[0].style, active_style());
    assert_eq!(lines[3].spans[0].style, plain_style());
    assert_eq!(lines[5].style, hint_style());
    // Keys without a meaning in the menu.
    press(&mut login, &mut ctx, KeyCode::Char('x'));
    press(&mut login, &mut ctx, KeyCode::Other);
    assert_eq!(shown(&login)[2], " >  Log in with a QR code");
    press(&mut login, &mut ctx, KeyCode::Enter);
    assert_eq!(shown(&login), vec!["Requesting a QR code…", "q quits"]);
}

#[test]
fn codes_and_addresses_are_trimmed_and_checked() {
    let mut ctx = context(TdAuth::WaitCode);
    let mut login = LoginWindow::new();
    assert!(press(&mut login, &mut ctx, KeyCode::Enter).is_none());
    assert_eq!(shown(&login).last().unwrap(), "This field is required.");
    paste(&mut login, &mut ctx, "12345");
    assert!(matches!(
        press(&mut login, &mut ctx, KeyCode::Enter),
        Some(Action::Login(LoginRequest::Code(code))) if code == "12345"
    ));
    ctx.td_auth = TdAuth::WaitEmail;
    paste(&mut login, &mut ctx, "nobody");
    assert!(press(&mut login, &mut ctx, KeyCode::Enter).is_none());
    assert_eq!(shown(&login).last().unwrap(), "Enter an email address.");
    paste(&mut login, &mut ctx, "@example.org");
    assert!(matches!(
        press(&mut login, &mut ctx, KeyCode::Enter),
        Some(Action::Login(LoginRequest::Email(address))) if address == "nobody@example.org"
    ));
    ctx.td_auth = TdAuth::WaitEmailCode;
    paste(&mut login, &mut ctx, "9a");
    assert!(matches!(
        press(&mut login, &mut ctx, KeyCode::Enter),
        Some(Action::Login(LoginRequest::EmailCode(code))) if code == "9a"
    ));
}

#[test]
fn new_account_takes_two_names() {
    let mut ctx = context(TdAuth::WaitRegistration);
    let mut login = LoginWindow::new();
    paste(&mut login, &mut ctx, " Ann ");
    // Enter moves on to the last name first.
    assert!(press(&mut login, &mut ctx, KeyCode::Enter).is_none());
    paste(&mut login, &mut ctx, " Lee");
    assert_eq!(
        shown(&login),
        vec![
            "New account",
            "",
            "First name",
            "  Ann ",
            "Last name",
            "  Lee█",
            "",
            "tab switches fields    enter continues    ctrl-c quits",
        ]
    );
    press(&mut login, &mut ctx, KeyCode::Tab);
    press(&mut login, &mut ctx, KeyCode::Backspace);
    press(&mut login, &mut ctx, KeyCode::Char('a'));
    press(&mut login, &mut ctx, KeyCode::Tab);
    assert!(matches!(
        press(&mut login, &mut ctx, KeyCode::Enter),
        Some(Action::Login(LoginRequest::Registration { first, last }))
            if first == "Anna" && last == "Lee"
    ));
}

#[test]
fn registration_needs_a_first_name() {
    let mut ctx = context(TdAuth::WaitRegistration);
    let mut login = LoginWindow::new();
    press(&mut login, &mut ctx, KeyCode::Tab);
    paste(&mut login, &mut ctx, "Lee");
    assert!(press(&mut login, &mut ctx, KeyCode::Enter).is_none());
    assert_eq!(shown(&login).last().unwrap(), "This field is required.");
}

#[test]
fn pending_request_blocks_input_but_not_quitting() {
    let mut ctx = context(TdAuth::WaitCode);
    let mut login = LoginWindow::new();
    paste(&mut login, &mut ctx, "1");
    assert!(press(&mut login, &mut ctx, KeyCode::Enter).is_some());
    ctx.dirty = false;
    assert!(press(&mut login, &mut ctx, KeyCode::Char('2')).is_none());
    paste(&mut login, &mut ctx, "3");
    assert!(!ctx.dirty);
    assert_eq!(shown(&login)[3], " 1█");
    assert!(matches!(login.on_key(&mut ctx, KeyCode::Char('c'), CONTROL), Some(Action::Quit)));
    // The request is sent again after a failure, as it was.
    login.update(&mut ctx, Action::LoginFailed("Wrong\r\ncode".to_string()));
    assert!(ctx.dirty);
    assert_eq!(shown(&login)[6..], ["", "Wrong", "code"]);
    assert_eq!(login.lines()[7].style, error_style());
    assert!(matches!(
        press(&mut login, &mut ctx, KeyCode::Enter),
        Some(Action::Login(LoginRequest::Code(code))) if code == "1"
    ));
}

#[test]
fn failure_after_the_sign_in_is_ignored() {
    let mut ctx = context(TdAuth::Ready);
    let mut login = LoginWindow::new();
    login.update(&mut ctx, Action::LoginFailed("late".to_string()));
    assert!(!ctx.dirty);
    assert!(login.lines().is_empty());
}

#[test]
fn keys_that_quit() {
    for state in [
        TdAuth::Starting,
        TdAuth::WaitPhoneNumber,
        TdAuth::WaitOtherDevice { link: "tg://login".to_string() },
        TdAuth::Ready,
    ] {
        let mut ctx = context(state);
        let mut login = LoginWindow::new();
        assert!(matches!(press(&mut login, &mut ctx, KeyCode::Esc), Some(Action::Quit)));
        assert!(matches!(press(&mut login, &mut ctx, KeyCode::Char('q')), Some(Action::Quit)));
        assert!(!ctx.dirty);
    }
    let mut ctx = context(TdAuth::WaitPassword);
    let mut login = LoginWindow::new();
    assert!(press(&mut login, &mut ctx, KeyCode::Char('q')).is_none());
    assert!(matches!(login.on_key(&mut ctx, KeyCode::Char('q'), CONTROL), Some(Action::Quit)));
    assert_eq!(shown(&login)[3], " •█");
    // Other characters with Ctrl are input.
    assert!(login.on_key(&mut ctx, KeyCode::Char('x'), CONTROL).is_none());
    assert_eq!(shown(&login)[3], " ••█");
}

#[test]
fn every_change_of_state_drops_what_was_typed() {
    let mut ctx = context(TdAuth::WaitCode);
    let mut login = LoginWindow::new();
    paste(&mut login, &mut ctx, "123");
    press(&mut login, &mut ctx, KeyCode::Enter);
    ctx.td_auth = TdAuth::WaitPassword;
    login.sync_auth(&ctx);
    assert_eq!(
        shown(&login),
        vec![
            "Cloud password",
            "",
            "Two-step verification",
            " █",
            "",
            "enter submits    ctrl-c quits",
        ]
    );
    // A second look at the same state keeps the input.
    paste(&mut login, &mut ctx, "pw");
    login.sync_auth(&ctx);
    assert_eq!(shown(&login)[3], " ••█");
}

#[test]
fn passwords_of_one_length_look_the_same() {
    let mut ctx = context(TdAuth::WaitPassword);
    let (mut one, mut other) = (LoginWindow::new(), LoginWindow::new());
    paste(&mut one, &mut ctx, "hunter2");
    paste(&mut other, &mut ctx, " a b c ");
    assert_eq!(shown(&one), shown(&other));
}

#[test]
fn text_card_is_placed_around_its_lines() {
    let mut login = LoginWindow::new();
    let ctx = context(TdAuth::Starting);
    let LoginFrame::Text(card) = login.draw(&ctx, Rect::new(0, 0, 80, 24)) else {
        panic!("text is shown while the program starts");
    };
    assert_eq!(card.card, Rect::new(14, 10, 52, 4));
    assert_eq!(card.inner, Rect::new(15, 11, 50, 2));
    assert_eq!(card.title, " Sign in ");
    // Twelve columns inside the border: the text takes two rows.
    let LoginFrame::Text(card) = login.draw(&ctx, Rect::new(0, 0, 14, 24)) else {
        panic!("text is shown while the program starts");
    };
    assert_eq!(card.card, Rect::new(0, 9, 14, 5));
    assert!(matches!(login.draw(&ctx, Rect::new(0, 0, 0, 24)), LoginFrame::Empty));
    assert!(matches!(login.draw(&ctx, Rect::new(0, 0, 80, 0)), LoginFrame::Empty));
}

#[test]
fn link_is_shown_as_a_code_or_as_an_excuse() {
    let mut login = LoginWindow::new();
    let link = "tg://login?token=0123456789abcdefghijklmnopqrstuvwxyzABCDEFGHIJK".to_string();
    let mut ctx = context(TdAuth::WaitOtherDevice { link });
    let LoginFrame::Qr(card) = login.draw(&ctx, Rect::new(0, 0, 80, 30)) else {
        panic!("the code fits");
    };
    assert_eq!(card.title, " Sign in · q quits ");
    assert_eq!(
        card.headers,
        vec!["Scan with Telegram on your phone", "Settings → Devices → Link Desktop Device"]
    );
    assert!(card.errors.is_empty());
    let side = card.rows[0].chars().count();
    assert!(card.rows.iter().all(|row| row.chars().count() == side));
    assert_eq!(card.rows.len(), (side + 1) / 2);
    assert_eq!(card.layout.inner.height as usize, card.rows.len() + 2);
    login.update(&mut ctx, Action::LoginFailed("oops".to_string()));
    let LoginFrame::Qr(card) = login.draw(&ctx, Rect::new(0, 0, 80, 30)) else {
        panic!("the code fits with an error");
    };
    assert_eq!(card.errors.len(), 2);
    assert_eq!(card.layout.error_area.height, 2);
    let LoginFrame::Text(card) = login.draw(&ctx, Rect::new(0, 0, 20, 10)) else {
        panic!("the code does not fit");
    };
    assert_eq!(card.title, " Sign in · q quits ");
    assert_eq!(shown(&login)[0], "Make the terminal larger to sign in.");
}

#[test]
fn secrets_are_cleared() {
    let mut ctx = context(TdAuth::WaitPassword);
    let mut login = LoginWindow::new();
    paste(&mut login, &mut ctx, "secret");
    login.clear_secrets();
    assert_eq!(shown(&login)[3], " █");
    ctx.td_auth = TdAuth::WaitOtherDevice { link: "tg://login?token=a".to_string() };
    login.sync_auth(&ctx);
    let area = Rect::new(0, 0, 80, 40);
    assert!(login.draw_qr(area).is_some());
    login.clear_secrets();
    assert!(login.draw_qr(area).is_none());
}

#[test]
fn other_events_do_nothing() {
    let mut ctx = context(TdAuth::WaitCode);
    let mut login = LoginWindow::new();
    assert!(login.handle_events(&mut ctx, None).is_none());
    assert!(login.handle_events(&mut ctx, Some(Event::Other)).is_none());
    assert!(!ctx.dirty);
    let key = Event::Key(KeyCode::Char('7'), KeyModifiers::none());
    assert!(login.handle_events(&mut ctx, Some(key)).is_none());
    assert!(ctx.dirty);
    assert_eq!(shown(&login)[3], " 7█");
}

#[test]
fn empty_line_of_an_error_has_no_text() {
    let mut ctx = context(TdAuth::Starting);
    let mut login = LoginWindow::new();
    login.update(&mut ctx, Action::LoginFailed("a\n\nb".to_string()));
    let lines = login.lines();
    assert_eq!(lines.len(), 6);
    assert_eq!(lines[3].spans.len(), 1);
    assert!(lines[4].spans.is_empty());
    assert_eq!(lines[4].style, error_style());
    assert_eq!(lines[5].spans[0].text, "b");
}

#[test]
fn card_of_short_lines_is_two_rows_higher() {
    let mut login = LoginWindow::new();
    let ctx = context(TdAuth::WaitOtherDevice { link: "tg://login?token=a".to_string() });
    // Too low for a code.
    let LoginFrame::Text(card) = login.draw(&ctx, Rect::new(0, 0, 60, 8)) else {
        panic!("no code fits");
    };
    assert_eq!(card.lines.len(), 2);
    assert_eq!(card.card, Rect::new(4, 2, 52, 4));
}

#[test]
fn submitting_keeps_what_was_typed() {
    let mut ctx = context(TdAuth::WaitEmail);
    let mut login = LoginWindow::new();
    paste(&mut login, &mut ctx, "nobody");
    // Refused: it can be corrected.
    assert!(login.submit().is_none());
    assert_eq!(shown(&login)[3], " nobody█");
    paste(&mut login, &mut ctx, "@b");
    assert!(login.submit().is_some());
    assert_eq!(shown(&login)[3], " nobody@b█");
    // A new account: the cursor moves on, the error stays.
    ctx.td_auth = TdAuth::WaitRegistration;
    paste(&mut login, &mut ctx, "Ann");
    login.update(&mut ctx, Action::LoginFailed("no".to_string()));
    assert!(login.submit().is_none());
    assert_eq!(shown(&login)[3], " Ann");
    assert_eq!(shown(&login)[5], " █");
    assert_eq!(shown(&login).last().unwrap(), "no");
    // Without a field nothing can be sent.
    ctx.td_auth = TdAuth::Ready;
    login.sync_auth(&ctx);
    assert!(login.submit().is_none());
    assert_eq!(shown(&login).last().unwrap(), "This field is required.");
}
