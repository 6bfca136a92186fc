//! The sign-in window, key by key.

use ratatui::widgets::{Block, Borders, Paragraph, Wrap};
use ratatui::{backend::TestBackend, Terminal};
use tgt::action::{Action, Event, KeyCode, KeyModifiers, LoginRequest};
use tgt::app_context::AppContext;
use tgt::geometry::Rect;
use tgt::login_phase::TdAuth;
use tgt::login_screen::LoginFrame;
use tgt::login_window::LoginWindow;
use tgt::qr::{qr_dark, CachedQr};

const LOGIN_LINK: &str = "tg://login?token=0123456789abcdefghijklmnopqrstuvwxyzABCDEFGHIJK";

fn create_test_app_context() -> AppContext {
    AppContext {
        td_auth: TdAuth::Starting,
        focused: None,
        dirty: false,
        show_title_bar: true,
        show_status_bar: true,
    }
}

#[test]
fn qr_keeps_four_module_quiet_zone() {
    let cached = CachedQr::fresh(LOGIN_LINK);
    let (code, scale) = cached.pick(80, 22).expect("qr fits");
    let pixels = (code.width + 8) * scale;
    assert!(qr_dark(code, scale, 4 * scale, 4 * scale));
    for x in 0..pixels {
        for y in 0..4 * scale {
            assert!(!qr_dark(code, scale, x, y));
            assert!(!qr_dark(code, scale, x, pixels - 1 - y));
        }
    }
    for y in 0..pixels {
        for x in 0..4 * scale {
            assert!(!qr_dark(code, scale, x, y));
            assert!(!qr_dark(code, scale, pixels - 1 - x, y));
        }
    }
}

#[test]
fn qr_request_waits_for_response_and_can_retry_after_failure() {
    let mut context = create_test_app_context();
    context.td_auth = TdAuth::WaitPhoneNumber;
    let mut login = LoginWindow::new();
    assert!(matches!(
        login.on_key(&mut context, KeyCode::Enter, KeyModifiers::none()),
        Some(Action::Login(LoginRequest::Qr))
    ));
    assert!(login.on_key(&mut context, KeyCode::Enter, KeyModifiers::none()).is_none());
    login.update(&mut context, Action::LoginFailed("Request rejected".into()));
    assert!(matches!(
        login.on_key(&mut context, KeyCode::Enter, KeyModifiers::none()),
        Some(Action::Login(LoginRequest::Qr))
    ));
}

#[test]
fn password_is_masked_submitted_verbatim_and_cleared_after_ready() {
    let mut context = create_test_app_context();
    context.td_auth = TdAuth::WaitPassword;
    let mut login = LoginWindow::new();
    let password = " secret with spaces ";
    login.handle_events(&mut context, Some(Event::Paste(password.into())));
    let mut terminal = Terminal::new(TestBackend::new(80, 24)).unwrap();
    terminal
        .draw(|frame| {
            let area = frame.area();
            let area = Rect::new(area.x, area.y, area.width, area.height);
            let LoginFrame::Text(card) = login.draw(&context, area) else {
                panic!("a password is asked for in text");
            };
            let (outer, inner) = (card.card, card.inner);
            frame.render_widget(
                Block::default().borders(Borders::ALL).title(card.title),
                ratatui::layout::Rect::new(outer.x, outer.y, outer.width, outer.height),
            );
            let lines: Vec<ratatui::text::Line> = card
                .lines
                .iter()
                .map(|line| {
                    ratatui::text::Line::from(
                        line.spans
                            .iter()
                            .map(|span| ratatui::text::Span::raw(span.text.clone()))
                            .collect::<Vec<_>>(),
                    )
                })
                .collect();
            frame.render_widget(
                Paragraph::new(lines).wrap(Wrap { trim: false }),
                ratatui::layout::Rect::new(inner.x, inner.y, inner.width, inner.height),
            );
        })
        .unwrap();
    let text: String = terminal
        .backend()
        .buffer()
        .content
        .iter()
        .map(|cell| cell.symbol())
        .collect();
    assert!(!text.contains("secret"));
    assert!(text.contains(&"•".repeat(password.chars().count())));
    assert!(matches!(
        login.on_key(&mut context, KeyCode::Enter, KeyModifiers::none()),
        Some(Action::Login(LoginRequest::Password(value))) if value == password
    ));
    context.td_auth = TdAuth::Ready;
    login.update(&mut context, Action::Refresh);
    context.td_auth = TdAuth::WaitPassword;
    assert!(login.on_key(&mut context, KeyCode::Enter, KeyModifiers::none()).is_none());
}
