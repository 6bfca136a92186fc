//! The sign-in window: it follows the authorization state, takes input and says
//! what is to be drawn. Telegram owns the authorization itself.

use crate::action::{action_view, event_view, Action, Event, KeyCode, KeyModifiers, LoginRequest};
use crate::app_context::AppContext;
use crate::login_model::{
    accepts, admissible, after_action, after_event, after_key, allowed, before_number, complaint,
    dialled, erased, initial, inserted, lemma_accepted_is_admissible, pasted, request_of,
    submission, submitted, synced, LoginView,
};
use crate::login_phase::{AuthView, TdAuth};
use crate::qr::CachedQr;
use crate::text::{
    contains_char, digit, is_alphanumeric, is_control, is_digit, is_white_space, trim,
};
use vstd::prelude::*;

pub mod draw;

verus! {

/// The sign-in window.
pub struct LoginWindow {
    state: TdAuth,
    text: String,
    last: String,
    on_last: bool,
    qr_selected: bool,
    phone_entry: bool,
    busy: bool,
    error: Option<String>,
    qr: Option<CachedQr>,
}

impl View for LoginWindow {
    type V = LoginView;

    closed spec fn view(&self) -> LoginView {
        LoginView {
            state: self.state@,
            text: self.text@,
            last: self.last@,
            on_last: self.on_last,
            qr_selected: self.qr_selected,
            phone_entry: self.phone_entry,
            busy: self.busy,
            error: match self.error {
                Some(error) => Some(error@),
                None => None,
            },
            qr: match self.qr {
                Some(codes) => Some(codes@),
                None => None,
            },
        }
    }
}

// ---------------------------------------------------------------------------
// Input
// ---------------------------------------------------------------------------

/// Input stays admissible when its last character is taken back.
proof fn lemma_shorter_is_admissible(state: AuthView, s: Seq<char>)
    requires
        admissible(state, s),
        s.len() > 0,
    ensures
        admissible(state, s.drop_last()),
{
    let shorter = s.drop_last();
    assert forall|i: int| 0 <= i < shorter.len() implies allowed(state, #[trigger] shorter[i]) by {
        assert(allowed(state, s[i]));
    }
    if state is WaitPhoneNumber {
        assert forall|i: int|
            0 <= i < shorter.len() && #[trigger] shorter[i] == '+' implies before_number(
            shorter.take(i),
        ) by {
            assert(s[i] == '+');
            assert(shorter.take(i) =~= s.take(i));
        }
    }
}

/// A plus sign may follow `input`: it holds neither a plus sign nor a digit.
fn allows_plus(input: &str) -> (yes: bool)
    ensures
        yes == before_number(input@),
{
    let mut yes = true;
    for c in it: input.chars()
        invariant
            it.seq() == input@,
            yes == before_number(input@.take(it.index())),
    {
        proof {
            let (now, next) = (input@.take(it.index()), input@.take(it.index() + 1));
            assert(next =~= now.push(c));
            if before_number(next) {
                assert forall|i: int| 0 <= i < now.len() implies !digit(#[trigger] now[i])
                    && now[i] != '+' by {
                    assert(next[i] == now[i]);
                }
                assert(!digit(next[now.len() as int]));
            }
        }
        if is_digit(c) || c == '+' {
            yes = false;
        }
    }
    assert(input@.take(input@.len() as int) =~= input@);
    yes
}

/// Input of a step, `len` characters long, may go on with the character `c`.
fn accepts_char(state: &TdAuth, input: &str, len: usize, c: char) -> (yes: bool)
    requires
        len == input@.len(),
    ensures
        yes == accepts(state@, input@, c),
{
    match state {
        TdAuth::WaitPhoneNumber => len < 32 && (is_digit(c) || c == ' ' || c == '-' || (c == '+'
            && allows_plus(input))),
        TdAuth::WaitCode | TdAuth::WaitEmailCode => len < 16 && is_alphanumeric(c),
        TdAuth::WaitEmail => len < 128 && !is_control(c) && !is_white_space(c),
        TdAuth::WaitPassword | TdAuth::WaitRegistration => len < 128 && !is_control(c),
        TdAuth::Starting | TdAuth::WaitOtherDevice { .. } | TdAuth::Ready => false,
    }
}

/// Adds the characters of `text` that the step accepts to its input.
pub fn insert_accepted(state: &TdAuth, input: &mut String, text: &str)
    ensures
        final(input)@ == inserted(state@, old(input)@, text@),
        admissible(state@, old(input)@) ==> admissible(state@, final(input)@),
{
    let mut len: usize = input.as_str().unicode_len();
    for c in it: text.chars()
        invariant
            it.seq() == text@,
            input@ == inserted(state@, old(input)@, text@.take(it.index())),
            admissible(state@, old(input)@) ==> admissible(state@, input@),
            len == input@.len(),
    {
        proof {
            let next = text@.take(it.index() + 1);
            assert(next.drop_last() =~= text@.take(it.index()));
            assert(next.last() == c);
        }
        if accepts_char(state, input.as_str(), len, c) {
            proof {
                if admissible(state@, input@) {
                    lemma_accepted_is_admissible(state@, input@, c);
                }
            }
            input.push(c);
            len += 1;
        }
    }
    assert(text@.take(text@.len() as int) =~= text@);
}

/// The digits and plus signs of a phone number as it was typed.
pub fn normalize_phone(raw: &str) -> (phone: String)
    ensures
        phone@ == dialled(raw@),
{
    let mut phone = String::new();
    proof {
        reveal(Seq::filter);
    }
    for c in it: raw.chars()
        invariant
            it.seq() == raw@,
            phone@ == dialled(raw@.take(it.index())),
    {
        proof {
            reveal(Seq::filter);
            let next = raw@.take(it.index() + 1);
            assert(next.drop_last() =~= raw@.take(it.index()));
            assert(next.last() == c);
        }
        if is_digit(c) || c == '+' {
            phone.push(c);
        }
    }
    assert(raw@.take(raw@.len() as int) =~= raw@);
    phone
}

impl LoginWindow {
    /// The window when the program starts.
    pub fn new() -> (window: LoginWindow)
        ensures
            window@ == initial(),
            window@.well_formed(),
    {
        LoginWindow {
            state: TdAuth::Starting,
            text: String::new(),
            last: String::new(),
            on_last: false,
            qr_selected: true,
            phone_entry: false,
            busy: false,
            error: None,
            qr: None,
        }
    }

    /// Follows the authorization state. Credentials are dropped on every change,
    /// also on the last one.
    pub fn sync_auth(&mut self, app_context: &AppContext)
        requires
            old(self)@.well_formed(),
        ensures
            final(self)@ == synced(old(self)@, app_context@.td_auth),
            final(self)@.well_formed(),
    {
        if app_context.td_auth == self.state {
            return ;
        }
        self.text = String::new();
        self.last = String::new();
        self.on_last = false;
        self.phone_entry = false;
        self.busy = false;
        self.error = None;
        self.qr = match &app_context.td_auth {
            TdAuth::WaitOtherDevice { link } => Some(CachedQr::fresh(link.as_str())),
            _ => None,
        };
        self.state = app_context.td_auth.clone();
    }

    /// The window has an input field.
    pub fn editing(&self) -> (yes: bool)
        ensures
            yes == self@.editing(),
    {
        match self.state {
            TdAuth::WaitPhoneNumber => self.phone_entry,
            TdAuth::Starting | TdAuth::WaitOtherDevice { .. } | TdAuth::Ready => false,
            _ => true,
        }
    }

    /// Adds typed or pasted text to the input that has the cursor.
    fn insert_str(&mut self, text: &str)
        requires
            old(self)@.well_formed(),
        ensures
            final(self)@ == pasted(old(self)@, text@),
            final(self)@.well_formed(),
    {
        if !self.editing() {
            return ;
        }
        if self.on_last {
            insert_accepted(&self.state, &mut self.last, text);
        } else {
            insert_accepted(&self.state, &mut self.text, text);
        }
        self.error = None;
    }

    /// Takes back the last character of the input that has the cursor.
    fn erase(&mut self)
        requires
            old(self)@.well_formed(),
        ensures
            final(self)@ == erased(old(self)@),
            final(self)@.well_formed(),
    {
        proof {
            if self@.input().len() > 0 {
                lemma_shorter_is_admissible(self@.state, self@.input());
            }
        }
        if self.on_last {
            self.last.pop();
        } else {
            self.text.pop();
        }
        self.error = None;
    }
}

impl LoginWindow {
    /// Submits the input. A new account needs the last name as well; input that
    /// cannot be sent gives a complaint instead. What was typed stays either way.
    pub fn submit(&mut self) -> (action: Option<Action>)
        requires
            old(self)@.well_formed(),
        ensures
            final(self)@ == submitted(old(self)@).window,
            action_view(action) == submitted(old(self)@).action,
            final(self)@.well_formed(),
    {
        let ghost w = self@;
        if matches!(self.state, TdAuth::WaitRegistration) && !self.on_last {
            self.on_last = true;
            return None;
        }
        let value = if matches!(self.state, TdAuth::WaitPassword) {
            self.text.as_str()
        } else {
            trim(self.text.as_str())
        };
        assert(value@ == submission(w));
        let dial = normalize_phone(value);
        let error = match self.state {
            TdAuth::WaitPhoneNumber if dial.as_str().unicode_len() < 5 => Some(
                "Include the country code, for example +1…",
            ),
            TdAuth::WaitEmail if !contains_char(value, '@') => Some("Enter an email address."),
            _ if value.is_empty() => Some("This field is required."),
            _ => None,
        };
        if let Some(error) = error {
            assert(complaint(w) == Some(error@));
            self.error = Some(error.to_owned());
            return None;
        }
        assert(complaint(w) is None);
        let request = match self.state {
            TdAuth::WaitPhoneNumber => LoginRequest::Phone(dial),
            TdAuth::WaitCode => LoginRequest::Code(value.to_owned()),
            TdAuth::WaitPassword => LoginRequest::Password(value.to_owned()),
            TdAuth::WaitEmail => LoginRequest::Email(value.to_owned()),
            TdAuth::WaitEmailCode => LoginRequest::EmailCode(value.to_owned()),
            _ => LoginRequest::Registration {
                first: value.to_owned(),
                last: trim(self.last.as_str()).to_owned(),
            },
        };
        assert(request@ == request_of(w));
        self.busy = true;
        self.error = None;
        Some(Action::Login(request))
    }

    /// Handles a key.
    pub fn on_key(
        &mut self,
        app_context: &mut AppContext,
        code: KeyCode,
        modifiers: KeyModifiers,
    ) -> (action: Option<Action>)
        requires
            old(self)@.well_formed(),
        ensures
            ({
                let outcome = after_key(
                    synced(old(self)@, old(app_context)@.td_auth),
                    code,
                    modifiers.control,
                );
                &&& final(self)@ == outcome.window
                &&& action_view(action) == outcome.action
                &&& final(app_context)@ == old(app_context)@.redraw(outcome.redraw)
            }),
            final(self)@.well_formed(),
    {
        self.sync_auth(app_context);
        let menu = matches!(self.state, TdAuth::WaitPhoneNumber) && !self.phone_entry;
        let editing = self.editing();
        if (modifiers.control && matches!(code, KeyCode::Char('c' | 'q'))) || (matches!(
            code,
            KeyCode::Esc | KeyCode::Char('q')
        ) && !editing) {
            return Some(Action::Quit);
        }
        if self.busy {
            return None;
        }
        app_context.mark_dirty();
        if menu {
            match code {
                KeyCode::Up => self.qr_selected = true,
                KeyCode::Down => self.qr_selected = false,
                KeyCode::Enter => {
                    self.error = None;
                    if self.qr_selected {
                        self.busy = true;
                        return Some(Action::Login(LoginRequest::Qr));
                    }
                    self.phone_entry = true;
                    self.text = String::new();
                },
                _ => {},
            }
        } else if editing {
            match code {
                KeyCode::Esc => if self.phone_entry {
                    self.phone_entry = false;
                    self.qr_selected = false;
                    self.error = None;
                },
                KeyCode::Char(c) => {
                    let mut typed = String::new();
                    typed.push(c);
                    assert(typed@ =~= seq![c]);
                    self.insert_str(typed.as_str());
                },
                KeyCode::Backspace => self.erase(),
                KeyCode::Tab => if matches!(self.state, TdAuth::WaitRegistration) {
                    self.on_last = !self.on_last;
                },
                KeyCode::Enter => return self.submit(),
                _ => {},
            }
        }
        None
    }

    /// Handles an event: a key, or text that is pasted.
    pub fn handle_events(&mut self, app_context: &mut AppContext, event: Option<Event>) -> (action:
        Option<Action>)
        requires
            old(self)@.well_formed(),
        ensures
            ({
                let outcome = after_event(
                    old(self)@,
                    event_view(event),
                    old(app_context)@.td_auth,
                );
                &&& final(self)@ == outcome.window
                &&& action_view(action) == outcome.action
                &&& final(app_context)@ == old(app_context)@.redraw(outcome.redraw)
            }),
            final(self)@.well_formed(),
    {
        match event {
            Some(Event::Key(code, modifiers)) => self.on_key(app_context, code, modifiers),
            Some(Event::Paste(text)) => {
                self.sync_auth(app_context);
                if !self.busy {
                    self.insert_str(text.as_str());
                    app_context.mark_dirty();
                }
                None
            },
            _ => None,
        }
    }

    /// Takes note of an action: a failed request is shown and can be tried again.
    pub fn update(&mut self, app_context: &mut AppContext, action: Action)
        requires
            old(self)@.well_formed(),
        ensures
            ({
                let outcome = after_action(old(self)@, action@, old(app_context)@.td_auth);
                &&& final(self)@ == outcome.window
                &&& final(app_context)@ == old(app_context)@.redraw(outcome.redraw)
            }),
            final(self)@.well_formed(),
    {
        self.sync_auth(app_context);
        if let Action::LoginFailed(error) = action {
            if !matches!(self.state, TdAuth::Ready) {
                self.error = Some(error);
                self.busy = false;
                app_context.mark_dirty();
            }
        }
    }

    /// Drops what was typed and the codes of the login link.
    pub fn clear_secrets(&mut self)
        requires
            old(self)@.well_formed(),
        ensures
            final(self)@ == old(self)@.without_secrets(),
            final(self)@.well_formed(),
    {
        self.text = String::new();
        self.last = String::new();
        self.qr = None;
    }
}

} // verus!
