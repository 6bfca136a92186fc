//! The whole screen: the sign-in window until Telegram reports that the session
//! is authorized, the chat shell from then on.

use crate::action::{action_view, event_view, Action, ComponentName, Event};
use crate::app_context::{AppContext, ContextView};
use crate::geometry::Rect;
use crate::login_model::{after_action, after_event, initial, synced};
use crate::login_phase::TdAuth;
use crate::login_screen::{login_frame, LoginFrame};
use crate::login_window::LoginWindow;
use ratatui::layout::{Constraint, Direction, Layout};
use vstd::prelude::*;

verus! {

/// Below this size the screen counts as small.
#[derive(Clone, Copy, Debug, PartialEq, Eq, Structural)]
pub struct SmallArea {
    pub width: u16,
    pub height: u16,
}

/// The rows that the parts of the chat shell ask for, from top to bottom: title
/// bar and status bar exactly, the core window at least.
#[derive(Clone, Copy, Debug, PartialEq, Eq, Structural)]
pub struct ShellRows {
    pub title_bar: u16,
    pub core_window: u16,
    pub status_bar: u16,
}

/// The rows that the parts of the chat shell ask for on a screen of `height`
/// rows. A bar shows when it is switched on and the screen is more than five rows
/// higher than a small one.
pub open spec fn rows_asked(context: ContextView, height: int, small_height: int) -> ShellRows {
    let tall = height > small_height + 5;
    ShellRows {
        title_bar: if context.show_title_bar && tall {
            3
        } else {
            0
        },
        core_window: small_height as u16,
        status_bar: if context.show_status_bar && tall {
            4
        } else {
            0
        },
    }
}

/// The rows that the parts of the chat shell ask for.
pub fn shell_rows(app_context: &AppContext, height: u16, small_height: u16) -> (rows: ShellRows)
    ensures
        rows == rows_asked(app_context@, height as int, small_height as int),
{
    let tall = height > 5 && height - 5 > small_height;
    ShellRows {
        title_bar: if app_context.show_title_bar && tall {
            3
        } else {
            0
        },
        core_window: small_height,
        status_bar: if app_context.show_status_bar && tall {
            4
        } else {
            0
        },
    }
}

/// The areas of the parts of the chat shell.
#[derive(Clone, Copy, Debug, PartialEq, Eq, Structural)]
pub struct ShellAreas {
    pub title_bar: Rect,
    pub core_window: Rect,
    pub status_bar: Rect,
}

/// The rectangle is as wide as `area` and takes some of its rows.
pub open spec fn band_of(part: Rect, area: Rect) -> bool {
    &&& part.x == area.x
    &&& part.width == area.width
    &&& area.y <= part.y
    &&& part.y + part.height <= area.bottom_edge()
}

/// The rows of `area` suffice for all parts of the chat shell, or no bar shows.
pub open spec fn rows_suffice(area: Rect, rows: ShellRows) -> bool {
    ||| rows.title_bar + rows.core_window + rows.status_bar <= area.height
    ||| rows.title_bar == 0 && rows.status_bar == 0
}

/// The title bar at the top of `area`, the status bar at its bottom, and the core
/// window on all rows between them.
pub open spec fn stacked(area: Rect, rows: ShellRows) -> ShellAreas {
    let (top, end) = (area.y + rows.title_bar, area.y + area.height - rows.status_bar);
    ShellAreas {
        title_bar: Rect { height: rows.title_bar, ..area },
        core_window: Rect { y: top as u16, height: (end - top) as u16, ..area },
        status_bar: Rect { y: end as u16, height: rows.status_bar, ..area },
    }
}

/// The parts follow each other from the top of `area` to its bottom without a gap,
/// the core window has the rows that it asked for and not one more while a bar has
/// too few, and no bar has more than it asked for.
pub open spec fn shared_out(areas: ShellAreas, area: Rect, rows: ShellRows) -> bool {
    let (title, core, status) = (areas.title_bar, areas.core_window, areas.status_bar);
    &&& title.y == area.y
    &&& core.y == title.y + title.height
    &&& status.y == core.y + core.height
    &&& status.y + status.height == area.y + area.height
    &&& title.height <= rows.title_bar
    &&& status.height <= rows.status_bar
    &&& core.height >= rows.core_window
    &&& rows.title_bar + rows.core_window + rows.status_bar > area.height ==> core.height
        == rows.core_window
}

/// Splits `area` into three bands, one above the other.
///
/// Calls `ratatui::layout::Layout::split` on a vertical layout with the
/// constraints `Length`, `Min` and `Length`. What is claimed: each part is as wide
/// as `area` and takes rows of `area` only, because these are required
/// constraints of the solver. Where the rows suffice, both lengths are kept and the
/// middle part grows into all rows between them. Where they do not, but suffice for
/// the middle part, that one keeps its minimum, which is held more strongly than
/// the lengths, and the bars share the rest without a gap; a minimum is read as an
/// `i16`, so a larger one is left out. Which bar gives way is left unsaid: both are
/// held with the same strength, and the solver walks hash maps that are seeded anew
/// in each process.
#[verifier::external_body]
fn split_rows(area: Rect, rows: ShellRows) -> (areas: ShellAreas)
    requires
        area.on_screen(),
    ensures
        band_of(areas.title_bar, area),
        band_of(areas.core_window, area),
        band_of(areas.status_bar, area),
        rows_suffice(area, rows) ==> areas == stacked(area, rows),
        rows.core_window <= area.height && rows.core_window <= i16::MAX ==> shared_out(
            areas,
            area,
            rows,
        ),
{
    let whole = ratatui::layout::Rect::new(area.x, area.y, area.width, area.height);
    let constraints = [
        Constraint::Length(rows.title_bar),
        Constraint::Min(rows.core_window),
        Constraint::Length(rows.status_bar),
    ];
    let parts = Layout::new(Direction::Vertical, constraints).split(whole);
    let (title, core, status) = (parts[0], parts[1], parts[2]);
    ShellAreas {
        title_bar: Rect { x: title.x, y: title.y, width: title.width, height: title.height },
        core_window: Rect { x: core.x, y: core.y, width: core.width, height: core.height },
        status_bar: Rect { x: status.x, y: status.y, width: status.width, height: status.height },
    }
}

/// What is drawn of the chat shell.
pub struct ShellFrame {
    /// The core window has to do with a narrow screen.
    pub small_area: bool,
    /// The rows that were asked for.
    pub rows: ShellRows,
    pub areas: ShellAreas,
}

/// What is drawn of the chat shell on `area`, once it is split.
pub fn shell_frame(area: Rect, small: SmallArea, rows: ShellRows, areas: ShellAreas) -> (frame:
    ShellFrame)
    ensures
        frame.small_area == (area.width < small.width),
        frame.rows == rows,
        frame.areas == areas,
{
    ShellFrame { small_area: area.width < small.width, rows, areas }
}

/// What is drawn on the screen.
pub enum TuiFrame {
    Login(LoginFrame),
    Shell(ShellFrame),
}

/// Where an event went.
pub enum Routed {
    /// The sign-in window handled it.
    Login(Option<Action>),
    /// The core window has to handle it.
    Core(Option<Event>),
}

/// The parts of the chat shell and the names that they go by.
pub open spec fn shell_parts() -> Seq<(ComponentName, Seq<char>)> {
    seq![
        (ComponentName::TitleBar, "Tgt"@),
        (ComponentName::CoreWindow, "Core Window"@),
        (ComponentName::StatusBar, "Status Bar"@),
    ]
}

/// The parts of the chat shell and the names that they go by.
pub fn shell_components() -> (parts: Vec<(ComponentName, &'static str)>)
    ensures
        parts@.map_values(|part: (ComponentName, &'static str)| (part.0, part.1@))
            == shell_parts(),
{
    let mut parts: Vec<(ComponentName, &'static str)> = Vec::new();
    parts.push((ComponentName::TitleBar, "Tgt"));
    parts.push((ComponentName::CoreWindow, "Core Window"));
    parts.push((ComponentName::StatusBar, "Status Bar"));
    assert(parts@.map_values(|part: (ComponentName, &'static str)| (part.0, part.1@))
        =~= shell_parts());
    parts
}

/// The screen.
pub struct Tui {
    pub login: LoginWindow,
}

impl Tui {
    /// The screen when the program starts.
    pub fn new() -> (tui: Tui)
        ensures
            tui.login@ == initial(),
            tui.login@.well_formed(),
    {
        Tui { login: LoginWindow::new() }
    }

    /// Handles an event: the sign-in window does while it has the focus, the core
    /// window otherwise.
    pub fn handle_events(&mut self, app_context: &mut AppContext, event: Option<Event>) -> (routed:
        Routed)
        requires
            old(self).login@.well_formed(),
        ensures
            final(self).login@.well_formed(),
            match routed {
                Routed::Login(action) => {
                    let outcome = after_event(
                        old(self).login@,
                        event_view(event),
                        old(app_context)@.td_auth,
                    );
                    &&& old(app_context)@.focused == Some(ComponentName::Login)
                    &&& final(self).login@ == outcome.window
                    &&& action_view(action) == outcome.action
                    &&& final(app_context)@ == old(app_context)@.redraw(outcome.redraw)
                },
                Routed::Core(forwarded) => {
                    &&& old(app_context)@.focused != Some(ComponentName::Login)
                    &&& forwarded == event
                    &&& final(self).login@ == old(self).login@
                    &&& final(app_context)@ == old(app_context)@
                },
            },
    {
        if matches!(app_context.focused, Some(ComponentName::Login)) {
            Routed::Login(self.login.handle_events(app_context, event))
        } else {
            Routed::Core(event)
        }
    }

    /// Takes note of an action, whoever has the focus.
    pub fn update(&mut self, app_context: &mut AppContext, action: Action)
        requires
            old(self).login@.well_formed(),
        ensures
            ({
                let outcome = after_action(old(self).login@, action@, old(app_context)@.td_auth);
                &&& final(self).login@ == outcome.window
                &&& final(app_context)@ == old(app_context)@.redraw(outcome.redraw)
            }),
            final(self).login@.well_formed(),
    {
        self.login.update(app_context, action);
    }

    /// Says what is to be drawn on `area`: the sign-in window until the session is
    /// authorized, the chat shell from then on. The sign-in window is not drawn
    /// again after that, so what was typed into it and its QR codes are dropped.
    pub fn draw(&mut self, app_context: &AppContext, area: Rect, small: SmallArea) -> (frame:
        TuiFrame)
        requires
            old(self).login@.well_formed(),
            area.on_screen(),
        ensures
            final(self).login@.well_formed(),
            match frame {
                TuiFrame::Login(drawn) => {
                    &&& !(app_context@.td_auth is Ready)
                    &&& final(self).login@ == synced(old(self).login@, app_context@.td_auth)
                    &&& drawn@ == login_frame(final(self).login@, area)
                },
                TuiFrame::Shell(shell) => {
                    &&& app_context@.td_auth is Ready
                    &&& final(self).login@ == old(self).login@.without_secrets()
                    &&& shell.small_area == (area.width < small.width)
                    &&& shell.rows == rows_asked(
                        app_context@,
                        area.height as int,
                        small.height as int,
                    )
                    &&& band_of(shell.areas.title_bar, area)
                    &&& band_of(shell.areas.core_window, area)
                    &&& band_of(shell.areas.status_bar, area)
                    &&& rows_suffice(area, shell.rows) ==> shell.areas == stacked(
                        area,
                        shell.rows,
                    )
                    &&& small.height <= area.height && small.height <= i16::MAX ==> shared_out(
                        shell.areas,
                        area,
                        shell.rows,
                    )
                },
            },
    {
        if !matches!(app_context.td_auth, TdAuth::Ready) {
            return TuiFrame::Login(self.login.draw(app_context, area));
        }
        self.login.clear_secrets();
        let rows = shell_rows(app_context, area.height, small.height);
        TuiFrame::Shell(shell_frame(area, small, rows, split_rows(area, rows)))
    }
}

/// The rows of the screen suffice for the chat shell at every height, but for one
/// with both bars: six rows more than a small screen, one less than they ask for.
pub proof fn law_rows_suffice_at_every_height_but_one(
    context: ContextView,
    area: Rect,
    small_height: u16,
)
    requires
        !(context.show_title_bar && context.show_status_bar && area.height == small_height + 6),
    ensures
        rows_suffice(area, rows_asked(context, area.height as int, small_height as int)),
{
}

/// A bar that is switched on shows, three rows of title bar and four of status bar, on
/// every screen that is more than five rows higher than a small one.
pub proof fn law_bars_show_where_there_is_room(context: ContextView, height: u16, small_height: u16)
    requires
        height > small_height + 5,
    ensures
        ({
            let rows = rows_asked(context, height as int, small_height as int);
            &&& context.show_title_bar ==> rows.title_bar == 3
            &&& context.show_status_bar ==> rows.status_bar == 4
            &&& rows.core_window == small_height
        }),
{
}

/// Where the rows suffice, the parts lie one below the other on the whole width of the
/// screen: the bars as high as they asked for, the core window on all rows between
/// them, down to the last row.
pub proof fn law_parts_fill_the_screen(area: Rect, rows: ShellRows)
    requires
        area.on_screen(),
        rows.title_bar + rows.status_bar <= area.height,
    ensures
        ({
            let areas = stacked(area, rows);
            let (title, core, status) = (areas.title_bar, areas.core_window, areas.status_bar);
            &&& title.x == area.x && core.x == area.x && status.x == area.x
            &&& title.width == area.width && core.width == area.width && status.width == area.width
            &&& title.y == area.y && title.height == rows.title_bar
            &&& core.y == title.y + title.height
            &&& status.y == core.y + core.height && status.height == rows.status_bar
            &&& status.y + status.height == area.y + area.height
        }),
{
}

/// At that one height exactly one of the bars has one row less than it asked for,
/// and the core window has the rows of a small screen.
pub proof fn law_one_bar_gives_way_by_one_row(
    context: ContextView,
    area: Rect,
    small_height: u16,
    areas: ShellAreas,
)
    requires
        context.show_title_bar && context.show_status_bar,
        area.height == small_height + 6,
        shared_out(areas, area, rows_asked(context, area.height as int, small_height as int)),
    ensures
        areas.core_window.height == small_height,
        (areas.title_bar.height == 2 && areas.status_bar.height == 4) || (areas.title_bar.height
            == 3 && areas.status_bar.height == 3),
{
}

/// A screen that is not more than five rows higher than a small one shows neither
/// bar, and a bar that is switched off never shows.
pub proof fn law_bars_need_room(context: ContextView, height: u16, small_height: u16)
    ensures
        ({
            let rows = rows_asked(context, height as int, small_height as int);
            &&& height <= small_height + 5 ==> rows.title_bar == 0 && rows.status_bar == 0
            &&& !context.show_title_bar ==> rows.title_bar == 0
            &&& !context.show_status_bar ==> rows.status_bar == 0
            &&& rows.core_window == small_height
            // Where a bar shows, the core window still has the rows of a small screen.
            &&& rows.title_bar > 0 || rows.status_bar > 0 ==> rows.core_window < height
        }),
{
}

} // verus!
