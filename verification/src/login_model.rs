//! The sign-in as a state machine: which input each step accepts, and what each
//! key does.

use crate::action::{ActionView, EventView, KeyCode, RequestView};
use crate::login_phase::AuthView;
use crate::qr::{fresh_codes, CachedQrView};
use crate::text::{alphanumeric, control, digit, trimmed, white_space};
use vstd::prelude::*;

verus! {

/// What the sign-in window holds.
#[verifier::ext_equal]
pub struct LoginView {
    /// The step that the window shows.
    pub state: AuthView,
    /// The input field, or the first name.
    pub text: Seq<char>,
    /// The last name.
    pub last: Seq<char>,
    /// Input goes to the last name.
    pub on_last: bool,
    /// The menu stands on the QR code, not on the phone number.
    pub qr_selected: bool,
    /// The phone number is being typed; else the menu shows.
    pub phone_entry: bool,
    /// A request is on its way.
    pub busy: bool,
    pub error: Option<Seq<char>>,
    /// The codes of the login link.
    pub qr: Option<CachedQrView>,
}

// ---------------------------------------------------------------------------
// Input
// ---------------------------------------------------------------------------

/// The longest input that a step takes.
pub open spec fn input_limit(state: AuthView) -> int {
    match state {
        AuthView::WaitPhoneNumber => 32,
        AuthView::WaitCode | AuthView::WaitEmailCode => 16,
        AuthView::WaitEmail | AuthView::WaitPassword | AuthView::WaitRegistration => 128,
        AuthView::Starting | AuthView::WaitOtherDevice { .. } | AuthView::Ready => 0,
    }
}

/// A phone number may go on with a plus sign: none of its characters so far is
/// a plus sign or a digit.
pub open spec fn before_number(s: Seq<char>) -> bool {
    forall|i: int| 0 <= i < s.len() ==> !digit(#[trigger] s[i]) && s[i] != '+'
}

/// Input `s` of a step may go on with the character `c`.
pub open spec fn accepts(state: AuthView, s: Seq<char>, c: char) -> bool {
    &&& s.len() < input_limit(state)
    &&& match state {
        AuthView::WaitPhoneNumber => digit(c) || c == ' ' || c == '-' || (c == '+'
            && before_number(s)),
        AuthView::WaitCode | AuthView::WaitEmailCode => alphanumeric(c),
        AuthView::WaitEmail => !control(c) && !white_space(c),
        _ => !control(c),
    }
}

/// Input `s` of a step after `text` was typed or pasted: characters that the
/// step does not accept are left out.
pub open spec fn inserted(state: AuthView, s: Seq<char>, text: Seq<char>) -> Seq<char>
    decreases text.len(),
{
    if text.len() == 0 {
        s
    } else {
        let before = inserted(state, s, text.drop_last());
        if accepts(state, before, text.last()) {
            before.push(text.last())
        } else {
            before
        }
    }
}

/// The character may stand in the input of a step.
pub open spec fn allowed(state: AuthView, c: char) -> bool {
    match state {
        AuthView::WaitPhoneNumber => digit(c) || c == ' ' || c == '-' || c == '+',
        AuthView::WaitCode | AuthView::WaitEmailCode => alphanumeric(c),
        AuthView::WaitEmail => !control(c) && !white_space(c),
        _ => !control(c),
    }
}

/// What the input of a step can be: not too long, of allowed characters, and in
/// a phone number at most one plus sign, ahead of all digits.
pub open spec fn admissible(state: AuthView, s: Seq<char>) -> bool {
    &&& s.len() <= input_limit(state)
    &&& forall|i: int| 0 <= i < s.len() ==> allowed(state, #[trigger] s[i])
    &&& state is WaitPhoneNumber ==> forall|i: int|
        0 <= i < s.len() && #[trigger] s[i] == '+' ==> before_number(s.take(i))
}

/// A character that a step accepts keeps its input admissible.
pub proof fn lemma_accepted_is_admissible(state: AuthView, s: Seq<char>, c: char)
    requires
        admissible(state, s),
        accepts(state, s, c),
    ensures
        admissible(state, s.push(c)),
{
    let longer = s.push(c);
    assert forall|i: int| 0 <= i < longer.len() implies allowed(state, #[trigger] longer[i]) by {
        if i < s.len() {
            assert(allowed(state, s[i]));
        }
    }
    if state is WaitPhoneNumber {
        assert forall|i: int|
            0 <= i < longer.len() && #[trigger] longer[i] == '+' implies before_number(
            longer.take(i),
        ) by {
            assert(longer.take(i) =~= s.take(i));
            if i == s.len() {
                assert(s.take(i) =~= s);
            } else {
                assert(s[i] == '+');
            }
        }
    }
}

// ---------------------------------------------------------------------------
// The window
// ---------------------------------------------------------------------------

impl LoginView {
    /// What holds of the window at all times: input stands only where the step
    /// takes it and is admissible there, and codes are kept only for the login
    /// link that is shown.
    pub open spec fn well_formed(self) -> bool {
        &&& admissible(self.state, self.text)
        &&& admissible(self.state, self.last)
        &&& !(self.state is WaitRegistration) ==> self.last.len() == 0
        &&& self.on_last ==> self.state is WaitRegistration
        &&& self.phone_entry ==> self.state is WaitPhoneNumber
        &&& self.qr is Some ==> {
            &&& self.state is WaitOtherDevice
            &&& self.qr->0 == fresh_codes(self.state->link)
            &&& self.qr->0.square()
        }
    }

    /// The window has an input field.
    pub open spec fn editing(self) -> bool {
        match self.state {
            AuthView::WaitPhoneNumber => self.phone_entry,
            AuthView::Starting | AuthView::WaitOtherDevice { .. } | AuthView::Ready => false,
            _ => true,
        }
    }

    /// The window asks how to sign in.
    pub open spec fn menu(self) -> bool {
        self.state is WaitPhoneNumber && !self.phone_entry
    }

    /// The input that has the cursor.
    pub open spec fn input(self) -> Seq<char> {
        if self.on_last {
            self.last
        } else {
            self.text
        }
    }

    /// The window with `s` in place of the input that has the cursor.
    pub open spec fn with_input(self, s: Seq<char>) -> LoginView {
        if self.on_last {
            LoginView { last: s, ..self }
        } else {
            LoginView { text: s, ..self }
        }
    }

    /// The window without its error message.
    pub open spec fn without_error(self) -> LoginView {
        LoginView { error: None, ..self }
    }

    /// The window without what was typed and without the codes of the link.
    pub open spec fn without_secrets(self) -> LoginView {
        LoginView { text: Seq::empty(), last: Seq::empty(), qr: None, ..self }
    }
}

/// The window when the program starts.
pub open spec fn initial() -> LoginView {
    LoginView {
        state: AuthView::Starting,
        text: Seq::empty(),
        last: Seq::empty(),
        on_last: false,
        qr_selected: true,
        phone_entry: false,
        busy: false,
        error: None,
        qr: None,
    }
}

/// The window once it follows the authorization state `auth`. When the state
/// changed, everything is dropped but the place in the menu, and the codes of a
/// new login link are made.
pub open spec fn synced(w: LoginView, auth: AuthView) -> LoginView {
    if w.state == auth {
        w
    } else {
        LoginView {
            state: auth,
            qr_selected: w.qr_selected,
            qr: match auth {
                AuthView::WaitOtherDevice { link } => Some(fresh_codes(link)),
                _ => None,
            },
            ..initial()
        }
    }
}

/// The window after `text` was typed or pasted.
pub open spec fn pasted(w: LoginView, text: Seq<char>) -> LoginView {
    if w.editing() {
        w.with_input(inserted(w.state, w.input(), text)).without_error()
    } else {
        w
    }
}

/// The window after the last character of the input was taken back.
pub open spec fn erased(w: LoginView) -> LoginView {
    let s = w.input();
    w.with_input(
        if s.len() > 0 {
            s.drop_last()
        } else {
            s
        },
    ).without_error()
}

/// What is dialled of a phone number as it was typed: its digits and its plus
/// sign.
pub open spec fn dialled(s: Seq<char>) -> Seq<char> {
    s.filter(|c: char| digit(c) || c == '+')
}

/// What is submitted of the input: a password as it is, anything else without
/// the white space at its ends.
pub open spec fn submission(w: LoginView) -> Seq<char> {
    if w.state is WaitPassword {
        w.text
    } else {
        trimmed(w.text)
    }
}

/// Why the input of the step cannot be submitted.
pub open spec fn complaint(w: LoginView) -> Option<Seq<char>> {
    let value = submission(w);
    if w.state is WaitPhoneNumber && dialled(value).len() < 5 {
        Some("Include the country code, for example +1…"@)
    } else if w.state is WaitEmail && !value.contains('@') {
        Some("Enter an email address."@)
    } else if value.len() == 0 {
        Some("This field is required."@)
    } else {
        None
    }
}

/// The request that submits the input of the step.
pub open spec fn request_of(w: LoginView) -> RequestView {
    let value = submission(w);
    match w.state {
        AuthView::WaitPhoneNumber => RequestView::Phone(dialled(value)),
        AuthView::WaitCode => RequestView::Code(value),
        AuthView::WaitPassword => RequestView::Password(value),
        AuthView::WaitEmail => RequestView::Email(value),
        AuthView::WaitEmailCode => RequestView::EmailCode(value),
        _ => RequestView::Registration { first: value, last: trimmed(w.last) },
    }
}

/// What comes of a key or another event.
#[verifier::ext_equal]
pub struct Outcome {
    pub window: LoginView,
    pub action: Option<ActionView>,
    /// The screen has to be drawn again.
    pub redraw: bool,
}

/// The input is submitted: the last name comes before a new account is sent, a
/// complaint is shown, or the request goes out.
pub open spec fn submitted(w: LoginView) -> Outcome {
    if w.state is WaitRegistration && !w.on_last {
        Outcome { window: LoginView { on_last: true, ..w }, action: None, redraw: true }
    } else {
        match complaint(w) {
            Some(error) => Outcome {
                window: LoginView { error: Some(error), ..w },
                action: None,
                redraw: true,
            },
            None => Outcome {
                window: LoginView { busy: true, error: None, ..w },
                action: Some(ActionView::Login(request_of(w))),
                redraw: true,
            },
        }
    }
}

/// The key ends the program: Ctrl-C and Ctrl-Q always do, Esc and `q` where they
/// are not input.
pub open spec fn quits(w: LoginView, key: KeyCode, control_held: bool) -> bool {
    ||| control_held && (key == KeyCode::Char('c') || key == KeyCode::Char('q'))
    ||| !w.editing() && (key == KeyCode::Esc || key == KeyCode::Char('q'))
}

/// What a key does in the menu.
pub open spec fn after_menu_key(w: LoginView, key: KeyCode) -> Outcome {
    let (window, action) = match key {
        KeyCode::Up => (LoginView { qr_selected: true, ..w }, None),
        KeyCode::Down => (LoginView { qr_selected: false, ..w }, None),
        KeyCode::Enter => if w.qr_selected {
            (
                LoginView { busy: true, error: None, ..w },
                Some(ActionView::Login(RequestView::Qr)),
            )
        } else {
            (LoginView { phone_entry: true, text: Seq::empty(), error: None, ..w }, None)
        },
        _ => (w, None),
    };
    Outcome { window, action, redraw: true }
}

/// What a key does in an input field.
pub open spec fn after_input_key(w: LoginView, key: KeyCode) -> Outcome {
    let window = match key {
        KeyCode::Esc => if w.phone_entry {
            LoginView { phone_entry: false, qr_selected: false, error: None, ..w }
        } else {
            w
        },
        KeyCode::Char(c) => pasted(w, seq![c]),
        KeyCode::Backspace => erased(w),
        KeyCode::Tab => if w.state is WaitRegistration {
            LoginView { on_last: !w.on_last, ..w }
        } else {
            w
        },
        _ => w,
    };
    if key == KeyCode::Enter {
        submitted(w)
    } else {
        Outcome { window, action: None, redraw: true }
    }
}

/// What a key does.
pub open spec fn after_key(w: LoginView, key: KeyCode, control_held: bool) -> Outcome {
    if quits(w, key, control_held) {
        Outcome { window: w, action: Some(ActionView::Quit), redraw: false }
    } else if w.busy {
        Outcome { window: w, action: None, redraw: false }
    } else if w.menu() {
        after_menu_key(w, key)
    } else if w.editing() {
        after_input_key(w, key)
    } else {
        Outcome { window: w, action: None, redraw: true }
    }
}

/// What an event does.
pub open spec fn after_event(w: LoginView, event: Option<EventView>, auth: AuthView) -> Outcome {
    match event {
        Some(EventView::Key(key, modifiers)) => after_key(
            synced(w, auth),
            key,
            modifiers.control,
        ),
        Some(EventView::Paste(text)) => {
            let w = synced(w, auth);
            if w.busy {
                Outcome { window: w, action: None, redraw: false }
            } else {
                Outcome { window: pasted(w, text), action: None, redraw: true }
            }
        },
        _ => Outcome { window: w, action: None, redraw: false },
    }
}

/// What an action does: a failed request is reported, unless the sign-in is over.
pub open spec fn after_action(w: LoginView, action: ActionView, auth: AuthView) -> Outcome {
    let w = synced(w, auth);
    match action {
        ActionView::LoginFailed(error) => if w.state is Ready {
            Outcome { window: w, action: None, redraw: false }
        } else {
            Outcome {
                window: LoginView { error: Some(error), busy: false, ..w },
                action: None,
                redraw: true,
            }
        },
        _ => Outcome { window: w, action: None, redraw: false },
    }
}

} // verus!
