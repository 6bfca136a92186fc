//! The whole screen, and the authorization state that it follows.

use tgt::action::{Action, ComponentName, Event, KeyCode, KeyModifiers};
use tgt::app_context::AppContext;
use tgt::geometry::Rect;
use tgt::login_phase::TdAuth;
use tgt::tui::{
    shell_components, shell_frame, shell_rows, Routed, ShellAreas, ShellRows, SmallArea, Tui,
    TuiFrame,
};

const SMALL: SmallArea = SmallArea { width: 100, height: 20 };

fn context(td_auth: TdAuth) -> AppContext {
    AppContext {
        td_auth,
        focused: None,
        dirty: false,
        show_title_bar: true,
        show_status_bar: true,
    }
}

#[test]
fn states_in_which_the_user_is_needed() {
    assert!(!TdAuth::Starting.needs_user());
    assert!(!TdAuth::Ready.needs_user());
    for state in [
        TdAuth::WaitPhoneNumber,
        TdAuth::WaitOtherDevice { link: String::new() },
        TdAuth::WaitCode,
        TdAuth::WaitPassword,
        TdAuth::WaitEmail,
        TdAuth::WaitEmailCode,
        TdAuth::WaitRegistration,
    ] {
        assert!(state.needs_user());
    }
}

#[test]
fn log_texts_leave_out_the_link() {
    let link = "tg://login?token=secret".to_string();
    let state = TdAuth::WaitOtherDevice { link };
    assert_eq!(state.debug_text(), "WaitOtherDevice { link: [redacted] }");
    let names = [
        (TdAuth::Starting, "Starting"),
        (TdAuth::WaitPhoneNumber, "WaitPhoneNumber"),
        (TdAuth::WaitCode, "WaitCode"),
        (TdAuth::WaitPassword, "WaitPassword"),
        (TdAuth::WaitEmail, "WaitEmail"),
        (TdAuth::WaitEmailCode, "WaitEmailCode"),
        (TdAuth::WaitRegistration, "WaitRegistration"),
        (TdAuth::Ready, "Ready"),
    ];
    for (state, name) in names {
        assert_eq!(state.debug_text(), name);
    }
}

#[test]
fn states_are_compared_with_their_links() {
    let link = |text: &str| TdAuth::WaitOtherDevice { link: text.to_string() };
    assert!(link("a") == link("a"));
    assert!(link("a") != link("b"));
    assert!(link("a").clone() == link("a"));
    assert!(TdAuth::WaitCode != TdAuth::WaitEmailCode);
    assert!(TdAuth::default() == TdAuth::Starting);
}

#[test]
fn events_go_to_the_side_with_the_focus() {
    let mut tui = Tui::new();
    let mut ctx = context(TdAuth::WaitCode);
    let key = || Some(Event::Key(KeyCode::Char('1'), KeyModifiers::none()));
    for focused in [None, Some(ComponentName::CoreWindow), Some(ComponentName::TitleBar)] {
        ctx.focused = focused;
        assert!(matches!(
            tui.handle_events(&mut ctx, key()),
            Routed::Core(Some(Event::Key(KeyCode::Char('1'), _)))
        ));
        assert!(!ctx.dirty);
    }
    ctx.focused = Some(ComponentName::Login);
    assert!(matches!(tui.handle_events(&mut ctx, key()), Routed::Login(None)));
    assert!(ctx.dirty);
    assert_eq!(tui.login.lines()[3].spans[1].text, "1");
    let quit = Some(Event::Key(KeyCode::Char('c'), KeyModifiers { control: true }));
    assert!(matches!(
        tui.handle_events(&mut ctx, quit),
        Routed::Login(Some(Action::Quit))
    ));
}

#[test]
fn actions_reach_the_sign_in_window_without_focus() {
    let mut tui = Tui::new();
    let mut ctx = context(TdAuth::WaitCode);
    tui.update(&mut ctx, Action::LoginFailed("no".to_string()));
    assert!(ctx.dirty);
    assert_eq!(tui.login.lines().last().unwrap().spans[0].text, "no");
    tui.update(&mut ctx, Action::UpdateArea(Rect::new(0, 0, 1, 1)));
    tui.update(&mut ctx, Action::Quit);
    assert_eq!(tui.login.lines().last().unwrap().spans[0].text, "no");
}

#[test]
fn sign_in_is_drawn_until_the_session_is_authorized() {
    let mut tui = Tui::new();
    let mut ctx = context(TdAuth::WaitPassword);
    ctx.focused = Some(ComponentName::Login);
    tui.handle_events(&mut ctx, Some(Event::Paste("secret".to_string())));
    let area = Rect::new(0, 0, 120, 40);
    assert!(matches!(tui.draw(&ctx, area, SMALL), TuiFrame::Login(_)));
    ctx.td_auth = TdAuth::Ready;
    let TuiFrame::Shell(shell) = tui.draw(&ctx, area, SMALL) else {
        panic!("the session is authorized");
    };
    assert!(!shell.small_area);
    assert_eq!(shell.rows, ShellRows { title_bar: 3, core_window: 20, status_bar: 4 });
    assert_eq!(shell.areas.title_bar, Rect::new(0, 0, 120, 3));
    assert_eq!(shell.areas.core_window, Rect::new(0, 3, 120, 33));
    assert_eq!(shell.areas.status_bar, Rect::new(0, 36, 120, 4));
    // What was typed is gone, though the window has not looked at the state again.
    assert_eq!(tui.login.lines()[3].spans[1].text, "");
}

#[test]
fn screen_is_small_below_its_width() {
    let mut tui = Tui::new();
    let ctx = context(TdAuth::Ready);
    for (width, small_area) in [(99, true), (100, false)] {
        let TuiFrame::Shell(shell) = tui.draw(&ctx, Rect::new(0, 0, width, 40), SMALL) else {
            panic!("the session is authorized");
        };
        assert_eq!(shell.small_area, small_area);
    }
}

#[test]
fn bars_show_on_high_screens_when_they_are_switched_on() {
    let mut ctx = context(TdAuth::Ready);
    let rows = |ctx: &AppContext, height| shell_rows(ctx, height, 20);
    let asked = |title_bar, status_bar| ShellRows { title_bar, core_window: 20, status_bar };
    assert_eq!(rows(&ctx, 25), asked(0, 0));
    assert_eq!(rows(&ctx, 26), asked(3, 4));
    assert_eq!(rows(&ctx, 0), asked(0, 0));
    ctx.show_title_bar = false;
    assert_eq!(rows(&ctx, 26), asked(0, 4));
    ctx.show_title_bar = true;
    ctx.show_status_bar = false;
    assert_eq!(rows(&ctx, 26), asked(3, 0));
    assert_eq!(
        shell_rows(&ctx, u16::MAX, u16::MAX),
        ShellRows { title_bar: 0, core_window: u16::MAX, status_bar: 0 }
    );
}

#[test]
fn bands_are_stacked_at_every_height() {
    let mut tui = Tui::new();
    for height in 0..120u16 {
        for (title, status) in [(false, false), (true, false), (false, true), (true, true)] {
            let mut ctx = context(TdAuth::Ready);
            ctx.show_title_bar = title;
            ctx.show_status_bar = status;
            let area = Rect::new(3, 7, 50, height);
            let TuiFrame::Shell(shell) = tui.draw(&ctx, area, SMALL) else {
                panic!("the session is authorized");
            };
            let (rows, areas) = (shell.rows, shell.areas);
            for part in [areas.title_bar, areas.core_window, areas.status_bar] {
                assert_eq!((part.x, part.width), (3, 50));
                assert!(part.top() >= 7 && part.bottom() <= 7 + height);
            }
            if title && status && height == 26 {
                // One row is missing: see below.
                continue;
            }
            assert_eq!(areas.title_bar, Rect::new(3, 7, 50, rows.title_bar));
            let core = height - rows.title_bar - rows.status_bar;
            assert_eq!(areas.core_window, Rect::new(3, 7 + rows.title_bar, 50, core));
            let below = 7 + height - rows.status_bar;
            assert_eq!(areas.status_bar, Rect::new(3, below, 50, rows.status_bar));
        }
    }
}

#[test]
fn one_bar_gives_way_when_a_row_is_missing() {
    let mut tui = Tui::new();
    let ctx = context(TdAuth::Ready);
    for small_height in [0, 1, 5, 20, 35, 100, 1000, 32767] {
        let small = SmallArea { width: 100, height: small_height };
        let area = Rect::new(2, 9, 60, small_height + 6);
        let TuiFrame::Shell(shell) = tui.draw(&ctx, area, small) else {
            panic!("the session is authorized");
        };
        let areas = shell.areas;
        let bars = (areas.title_bar.height, areas.status_bar.height);
        assert!(bars == (2, 4) || bars == (3, 3), "{bars:?} beside {small_height} rows");
        assert_eq!(areas.core_window.height, small_height);
        assert_eq!(areas.title_bar.y, 9);
        assert_eq!(areas.core_window.y, areas.title_bar.bottom());
        assert_eq!(areas.status_bar.y, areas.core_window.bottom());
        assert_eq!(areas.status_bar.bottom(), area.bottom());
    }
}

#[test]
fn shell_is_drawn_where_it_was_split() {
    let area = Rect::new(0, 0, 80, 30);
    let rows = ShellRows { title_bar: 3, core_window: 20, status_bar: 4 };
    let areas = ShellAreas {
        title_bar: Rect::new(0, 0, 80, 2),
        core_window: Rect::new(0, 2, 80, 24),
        status_bar: Rect::new(0, 26, 80, 4),
    };
    let shell = shell_frame(area, SMALL, rows, areas);
    assert!(shell.small_area);
    assert_eq!((shell.rows, shell.areas), (rows, areas));
}

#[test]
fn parts_of_the_shell_have_names() {
    assert_eq!(
        shell_components(),
        vec![
            (ComponentName::TitleBar, "Tgt"),
            (ComponentName::CoreWindow, "Core Window"),
            (ComponentName::StatusBar, "Status Bar"),
        ]
    );
}
