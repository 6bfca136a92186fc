//! What the sign-in window keeps, whatever the user does.

use crate::action::{ActionView, EventView, KeyCode, RequestView};
use crate::geometry::Rect;
use crate::login_model::{
    accepts, admissible, after_action, after_event, after_key, before_number, dialled, erased,
    inserted, lemma_accepted_is_admissible, pasted, quits, submission, submitted, synced,
    LoginView, Outcome,
};
use crate::login_phase::AuthView;
use crate::login_screen::{card_lines, form_lines, login_frame, shown};
use crate::text::{
    digit, law_trimmed_has_no_white_space_at_its_ends, repeated, trimmed, white_around,
};
use vstd::prelude::*;

verus! {

// ---------------------------------------------------------------------------
// Credentials
// ---------------------------------------------------------------------------

/// Whenever the authorization state changes, also when the sign-in is over, all
/// that was typed is dropped, with the error, the pending request and the codes
/// of an earlier link.
pub proof fn law_credentials_are_dropped_on_every_change(w: LoginView, auth: AuthView)
    requires
        w.state != auth,
    ensures
        ({
            let next = synced(w, auth);
            &&& next.state == auth
            &&& next.text.len() == 0 && next.last.len() == 0
            &&& next.error is None && !next.busy && !next.on_last && !next.phone_entry
            &&& !(auth is WaitOtherDevice) ==> next.qr is None
        }),
{
}

/// What was typed before the sign-in was over cannot come back after it: any
/// later step begins with an empty input, and submitting it sends nothing.
pub proof fn law_input_is_gone_once_the_sign_in_is_over(w: LoginView, auth: AuthView)
    requires
        !(auth is Ready),
    ensures
        ({
            let next = synced(synced(w, AuthView::Ready), auth);
            &&& next.text.len() == 0 && next.last.len() == 0
            &&& next.editing() ==> after_key(next, KeyCode::Enter, false).action is None
        }),
{
    let next = synced(synced(w, AuthView::Ready), auth);
    assert(trimmed(next.text) == next.text);
    assert(dialled(next.text).len() == 0) by {
        reveal(Seq::filter);
    }
}

/// Nothing that the window shows tells more of a password than its length: two
/// windows whose passwords have the same length are drawn alike.
pub proof fn law_password_is_masked(w: LoginView, other: Seq<char>, area: Rect)
    requires
        w.state is WaitPassword,
        other.len() == w.text.len(),
    ensures
        card_lines(w) == card_lines(LoginView { text: other, ..w }),
        login_frame(w, area) == login_frame(LoginView { text: other, ..w }, area),
        shown(w.state, w.text) == repeated('•', w.text.len()),
{
    assert(form_lines(w) == form_lines(LoginView { text: other, ..w }));
}

/// A password is submitted as it was typed, with the spaces at its ends.
pub proof fn law_password_is_submitted_verbatim(w: LoginView)
    requires
        w.state is WaitPassword,
        !w.busy,
        w.text.len() > 0,
    ensures
        after_key(w, KeyCode::Enter, false).action == Some(
            ActionView::Login(RequestView::Password(w.text)),
        ),
{
}

// ---------------------------------------------------------------------------
// Requests
// ---------------------------------------------------------------------------

/// While a request is on its way, no key and no pasted text does anything, but
/// for the keys that end the program.
pub proof fn law_window_waits_for_the_answer(w: LoginView, key: KeyCode, control_held: bool, text:
    Seq<char>)
    requires
        w.busy,
    ensures
        !quits(w, key, control_held) ==> after_key(w, key, control_held) == (Outcome {
            window: w,
            action: None,
            redraw: false,
        }),
        after_event(w, Some(EventView::Paste(text)), w.state).window == w,
{
}

/// A request that goes out makes the window wait, and a request that failed can
/// be sent again as it was: the input is still there.
pub proof fn law_failed_request_can_be_sent_again(
    w: LoginView,
    request: RequestView,
    error: Seq<char>,
)
    requires
        after_key(w, KeyCode::Enter, false).action == Some(ActionView::Login(request)),
    ensures
        ({
            let sent = after_key(w, KeyCode::Enter, false).window;
            let failed = after_action(sent, ActionView::LoginFailed(error), w.state).window;
            &&& sent.busy
            &&& after_key(sent, KeyCode::Enter, false).action is None
            &&& failed.error == Some(error)
            &&& after_key(failed, KeyCode::Enter, false).action == Some(ActionView::Login(request))
        }),
{
}

/// The menu asks for a QR code when the QR code is selected.
pub proof fn law_menu_requests_a_qr_code(w: LoginView)
    requires
        w.menu(),
        w.qr_selected,
        !w.busy,
    ensures
        after_key(w, KeyCode::Enter, false).action == Some(ActionView::Login(RequestView::Qr)),
        after_key(w, KeyCode::Enter, false).window.busy,
{
}

/// Ctrl-C and Ctrl-Q end the program at every step, also while a request is on
/// its way; in an input field `q` and Esc do not.
pub proof fn law_quitting(w: LoginView)
    ensures
        after_key(w, KeyCode::Char('c'), true).action == Some(ActionView::Quit),
        after_key(w, KeyCode::Char('q'), true).action == Some(ActionView::Quit),
        w.editing() ==> after_key(w, KeyCode::Char('q'), false).action is None,
        w.editing() ==> after_key(w, KeyCode::Esc, false).action is None,
        !w.editing() ==> after_key(w, KeyCode::Char('q'), false).action == Some(ActionView::Quit),
        !w.editing() ==> after_key(w, KeyCode::Esc, false).action == Some(ActionView::Quit),
{
}

/// Submitting keeps what was typed, whether it is sent or refused: the text, the
/// last name, the step, the place in the menu and the codes stay, so that refused
/// input can be corrected. The cursor only ever moves to the last name, in a new
/// account; nothing is sent then, and neither the error nor the pending request
/// changes.
pub proof fn law_submitting_keeps_what_was_typed(w: LoginView)
    ensures
        ({
            let outcome = submitted(w);
            let next = outcome.window;
            &&& next.text == w.text && next.last == w.last
            &&& next.state == w.state && next.phone_entry == w.phone_entry
            &&& next.qr_selected == w.qr_selected && next.qr == w.qr
            &&& next.on_last != w.on_last ==> {
                &&& w.state is WaitRegistration && !w.on_last && next.on_last
                &&& outcome.action is None
                &&& next.error == w.error && next.busy == w.busy
            }
            &&& outcome.action is Some ==> next.busy && next.error is None
            &&& outcome.action is None ==> next.busy == w.busy
        }),
{
}

/// Nothing empty is submitted, and an email address holds an `@`.
pub proof fn law_only_filled_input_is_submitted(w: LoginView, request: RequestView)
    requires
        w.editing(),
        after_key(w, KeyCode::Enter, false).action == Some(ActionView::Login(request)),
    ensures
        submission(w).len() > 0,
        w.state is WaitEmail ==> submission(w).contains('@'),
{
    if w.state is WaitPhoneNumber && submission(w).len() == 0 {
        reveal(Seq::filter);
    }
}

// ---------------------------------------------------------------------------
// Input
// ---------------------------------------------------------------------------

/// Pasting a text in two parts is the same as pasting it at once, so typing it
/// character by character is as well.
pub proof fn law_pasting_is_typing(state: AuthView, s: Seq<char>, a: Seq<char>, b: Seq<char>)
    ensures
        inserted(state, inserted(state, s, a), b) == inserted(state, s, a + b),
    decreases b.len(),
{
    if b.len() == 0 {
        assert(a + b =~= a);
    } else {
        law_pasting_is_typing(state, s, a, b.drop_last());
        assert((a + b).drop_last() =~= a + b.drop_last());
        assert((a + b).last() == b.last());
    }
}

/// Backspace takes back a character that was typed: only an error message is
/// gone.
pub proof fn law_backspace_takes_back_a_character(w: LoginView, c: char)
    requires
        w.editing(),
        accepts(w.state, w.input(), c),
    ensures
        erased(pasted(w, seq![c])) == w.without_error(),
{
    let typed = seq![c];
    assert(typed.drop_last() =~= Seq::empty());
    assert(inserted(w.state, w.input(), typed.drop_last()) == w.input());
    assert(inserted(w.state, w.input(), typed) == w.input().push(c));
    assert(w.input().push(c).drop_last() =~= w.input());
    assert(erased(pasted(w, typed)) =~= w.without_error());
}

/// A phone number that is typed holds at most one plus sign, ahead of all
/// digits.
pub open spec fn plus_leads(s: Seq<char>) -> bool {
    forall|i: int| 0 <= i < s.len() && #[trigger] s[i] == '+' ==> before_number(s.take(i))
}

/// Nothing is dialled of a text without digits and plus signs.
proof fn lemma_nothing_dialled(s: Seq<char>)
    requires
        before_number(s),
    ensures
        dialled(s).len() == 0,
    decreases s.len(),
{
    reveal(Seq::filter);
    if s.len() > 0 {
        assert(!digit(s[s.len() - 1]) && s[s.len() - 1] != '+');
        assert forall|i: int| 0 <= i < s.drop_last().len() implies !digit(
            #[trigger] s.drop_last()[i],
        ) && s.drop_last()[i] != '+' by {
            assert(s.drop_last()[i] == s[i]);
        }
        lemma_nothing_dialled(s.drop_last());
    }
}

/// What is dialled of a number whose plus sign leads is an optional plus sign
/// and digits.
proof fn lemma_dialled(s: Seq<char>)
    requires
        plus_leads(s),
    ensures
        forall|i: int|
            0 <= i < dialled(s).len() ==> digit(#[trigger] dialled(s)[i]) || (i == 0 && dialled(s)[i]
                == '+'),
    decreases s.len(),
{
    reveal(Seq::filter);
    if s.len() > 0 {
        let rest = s.drop_last();
        assert forall|i: int| 0 <= i < rest.len() && #[trigger] rest[i] == '+' implies before_number(
            rest.take(i),
        ) by {
            assert(s[i] == '+');
            assert(rest.take(i) =~= s.take(i));
        }
        lemma_dialled(rest);
        if s.last() == '+' {
            assert(s[s.len() - 1] == '+');
            assert(s.take(s.len() - 1) =~= rest);
            lemma_nothing_dialled(rest);
        }
        assert forall|i: int| 0 <= i < dialled(s).len() implies digit(#[trigger] dialled(s)[i]) || (
        i == 0 && dialled(s)[i] == '+') by {
            if i < dialled(rest).len() {
                assert(dialled(s)[i] == dialled(rest)[i]);
            } else {
                assert(dialled(s)[i] == s.last());
            }
        }
    }
}

/// A phone number that is submitted is at least five characters long: an optional
/// plus sign, and digits.
pub proof fn law_submitted_phone_number_can_be_dialled(w: LoginView, number: Seq<char>)
    requires
        w.well_formed(),
        w.state is WaitPhoneNumber,
        after_key(w, KeyCode::Enter, false).action == Some(
            ActionView::Login(RequestView::Phone(number)),
        ),
    ensures
        number.len() >= 5,
        forall|i: int|
            0 <= i < number.len() ==> digit(#[trigger] number[i]) || (i == 0 && number[i] == '+'),
{
    let value = trimmed(w.text);
    law_trimmed_has_no_white_space_at_its_ends(w.text);
    let (from, to) = choose|from: int, to: int| #[trigger]
        white_around(w.text, from, to) && value == w.text.subrange(from, to);
    assert forall|i: int| 0 <= i < value.len() && #[trigger] value[i] == '+' implies before_number(
        value.take(i),
    ) by {
        assert(w.text[from + i] == '+');
        let ahead = w.text.take(from + i);
        assert(before_number(ahead));
        assert forall|j: int| 0 <= j < i implies !digit(#[trigger] value.take(i)[j])
            && value.take(i)[j] != '+' by {
            assert(value.take(i)[j] == ahead[from + j]);
        }
    }
    lemma_dialled(value);
}

/// The input of every step stays within its limit and its alphabet: typing and
/// pasting add only what the step accepts.
pub proof fn law_input_stays_admissible(state: AuthView, s: Seq<char>, text: Seq<char>)
    requires
        admissible(state, s),
    ensures
        admissible(state, inserted(state, s, text)),
    decreases text.len(),
{
    if text.len() > 0 {
        law_input_stays_admissible(state, s, text.drop_last());
        let before = inserted(state, s, text.drop_last());
        if accepts(state, before, text.last()) {
            lemma_accepted_is_admissible(state, before, text.last());
        }
    }
}

} // verus!
