//! What the user does and what the client is asked to do.

use crate::geometry::Rect;
use vstd::prelude::*;

verus! {

/// A part of the screen.
#[derive(Clone, Copy, Debug, PartialEq, Eq, Structural, Hash)]
pub enum ComponentName {
    TitleBar,
    CoreWindow,
    StatusBar,
    Login,
}

/// A key.
#[derive(Clone, Copy, Debug, PartialEq, Eq, Structural)]
pub enum KeyCode {
    Up,
    Down,
    Enter,
    Esc,
    Backspace,
    Tab,
    Char(char),
    /// A key that the sign-in screen has no use for.
    Other,
}

/// The keys held down with another one, as far as they matter here.
#[derive(Clone, Copy, Debug, PartialEq, Eq, Structural)]
pub struct KeyModifiers {
    pub control: bool,
}

impl KeyModifiers {
    /// No key held down.
    pub fn none() -> (modifiers: KeyModifiers)
        ensures
            !modifiers.control,
    {
        KeyModifiers { control: false }
    }
}

/// Something that the terminal reports.
pub enum Event {
    Key(KeyCode, KeyModifiers),
    Paste(String),
    /// An event that the sign-in screen has no use for.
    Other,
}

/// What a reported event holds.
pub enum EventView {
    Key(KeyCode, KeyModifiers),
    Paste(Seq<char>),
    Other,
}

impl View for Event {
    type V = EventView;

    open spec fn view(&self) -> EventView {
        match self {
            Event::Key(code, modifiers) => EventView::Key(*code, *modifiers),
            Event::Paste(text) => EventView::Paste(text@),
            Event::Other => EventView::Other,
        }
    }
}

/// A step of the sign-in that is sent to Telegram.
///
/// The type has no `Debug`: it holds credentials.
#[derive(Clone)]
pub enum LoginRequest {
    Qr,
    Phone(String),
    Code(String),
    Password(String),
    Email(String),
    EmailCode(String),
    Registration { first: String, last: String },
}

/// What a step of the sign-in holds.
pub enum RequestView {
    Qr,
    Phone(Seq<char>),
    Code(Seq<char>),
    Password(Seq<char>),
    Email(Seq<char>),
    EmailCode(Seq<char>),
    Registration { first: Seq<char>, last: Seq<char> },
}

impl View for LoginRequest {
    type V = RequestView;

    open spec fn view(&self) -> RequestView {
        match self {
            LoginRequest::Qr => RequestView::Qr,
            LoginRequest::Phone(number) => RequestView::Phone(number@),
            LoginRequest::Code(code) => RequestView::Code(code@),
            LoginRequest::Password(password) => RequestView::Password(password@),
            LoginRequest::Email(address) => RequestView::Email(address@),
            LoginRequest::EmailCode(code) => RequestView::EmailCode(code@),
            LoginRequest::Registration { first, last } => RequestView::Registration {
                first: first@,
                last: last@,
            },
        }
    }
}

/// What the client is asked to do.
#[derive(Clone)]
pub enum Action {
    Quit,
    Refresh,
    UpdateArea(Rect),
    Login(LoginRequest),
    LoginFailed(String),
}

/// What an action holds.
pub enum ActionView {
    Quit,
    Refresh,
    UpdateArea(Rect),
    Login(RequestView),
    LoginFailed(Seq<char>),
}

impl View for Action {
    type V = ActionView;

    open spec fn view(&self) -> ActionView {
        match self {
            Action::Quit => ActionView::Quit,
            Action::Refresh => ActionView::Refresh,
            Action::UpdateArea(area) => ActionView::UpdateArea(*area),
            Action::Login(request) => ActionView::Login(request@),
            Action::LoginFailed(error) => ActionView::LoginFailed(error@),
        }
    }
}

/// What an optional action holds.
pub open spec fn action_view(action: Option<Action>) -> Option<ActionView> {
    match action {
        Some(action) => Some(action@),
        None => None,
    }
}

/// What an optional event holds.
pub open spec fn event_view(event: Option<Event>) -> Option<EventView> {
    match event {
        Some(event) => Some(event@),
        None => None,
    }
}

} // verus!
