//! What each step of the sign-in takes in, sends and shows, in terms of what the user
//! types.

use crate::action::{ActionView, EventView, KeyCode, RequestView};
use crate::app_context::ContextView;
use crate::login_model::{
    after_action, after_event, after_key, dialled, erased, initial, inserted, pasted, submission,
    synced, LoginView,
};
use crate::login_phase::AuthView;
use crate::qr::{qr_encoding, EcLevel};
use crate::text::{
    control, law_trimmed_has_no_white_space_at_its_ends, trimmed, white_around, white_space,
};
use crate::text_laws::{
    law_trimming_keeps_what_has_no_white_space_around_it,
    law_trimming_takes_off_white_space_around_a_text,
};
use vstd::prelude::*;

verus! {

// ---------------------------------------------------------------------------
// The authorization state
// ---------------------------------------------------------------------------

/// Whenever a new login link is there, also after an earlier link, the window holds
/// the codes of that link: one with medium and one with low correction, each as far
/// as the encoder makes one. A link of more than 35 characters has no code if it is
/// not ASCII, or has more than 176.
pub proof fn law_every_new_link_gets_its_codes(w: LoginView, link: Seq<char>)
    requires
        w.state != (AuthView::WaitOtherDevice { link }),
    ensures
        ({
            let next = synced(w, AuthView::WaitOtherDevice { link });
            let short = link.len() <= 35 || (link.len() <= 176 && forall|i: int|
                0 <= i < link.len() ==> '\0' <= #[trigger] link[i] <= '\u{7f}');
            &&& next.state == (AuthView::WaitOtherDevice { link })
            &&& next.qr is Some
            &&& short ==> next.qr->0.medium == qr_encoding(link, EcLevel::Medium)
            &&& short ==> next.qr->0.low == qr_encoding(link, EcLevel::Low)
            &&& !short ==> next.qr->0.medium is None && next.qr->0.low is None
        }),
{
}

/// While the authorization state stays as it is, so does the window; any change is
/// followed, and only the place in the menu outlives it.
pub proof fn law_window_follows_the_state(w: LoginView, other: LoginView, auth: AuthView)
    ensures
        synced(w, w.state) == w,
        synced(w, auth).state == auth,
        synced(synced(w, auth), auth) == synced(w, auth),
        synced(w, auth).qr_selected == w.qr_selected,
        // Whatever was there before, the window is the same after the change.
        w.state != auth && other.state != auth && w.qr_selected == other.qr_selected ==> synced(
            w,
            auth,
        ) == synced(other, auth),
{
}

/// The window begins with nothing typed, no request and no error, and the menu on
/// the QR code.
pub proof fn law_window_begins_empty()
    ensures
        ({
            let w = initial();
            &&& w.state is Starting
            &&& w.text.len() == 0 && w.last.len() == 0
            &&& !w.on_last && w.qr_selected && !w.phone_entry && !w.busy
            &&& w.error is None && w.qr is None
        }),
{
}

/// Clearing the secrets empties both fields and drops the codes, and leaves the rest
/// of the window alone.
pub proof fn law_clearing_drops_all_secrets(w: LoginView)
    ensures
        ({
            let next = w.without_secrets();
            &&& next.text.len() == 0 && next.last.len() == 0 && next.qr is None
            &&& next.state == w.state && next.on_last == w.on_last
            &&& next.qr_selected == w.qr_selected && next.phone_entry == w.phone_entry
            &&& next.busy == w.busy && next.error == w.error
        }),
{
}

/// There is a field to type into at every step that asks for something, but for the
/// phone number only once it was chosen in the menu.
pub proof fn law_steps_with_a_field(w: LoginView)
    ensures
        w.state is WaitCode || w.state is WaitPassword || w.state is WaitEmail
            || w.state is WaitEmailCode || w.state is WaitRegistration ==> w.editing(),
        w.state is Starting || w.state is WaitOtherDevice || w.state is Ready ==> !w.editing(),
        w.state is WaitPhoneNumber ==> w.editing() == w.phone_entry,
{
}

// ---------------------------------------------------------------------------
// Input
// ---------------------------------------------------------------------------

/// The longest input of a step, and the characters that it can hold, apart from the
/// plus sign of a phone number.
pub open spec fn step_takes(state: AuthView, most: int, c: char) -> bool {
    match state {
        AuthView::WaitPhoneNumber => most == 32 && ('0' <= c <= '9' || c == ' ' || c == '-'),
        AuthView::WaitCode | AuthView::WaitEmailCode => most == 16 && ('0' <= c <= '9' || 'a' <= c
            <= 'z' || 'A' <= c <= 'Z'),
        AuthView::WaitEmail => most == 128 && !control(c) && !white_space(c),
        AuthView::WaitPassword | AuthView::WaitRegistration => most == 128 && !control(c),
        _ => false,
    }
}

/// Text that a step takes arrives as it is, as far as the step has room: a name or a
/// password in any script, an email address without white space, a code of ASCII
/// letters and digits, a phone number of digits, spaces and hyphens.
pub proof fn law_allowed_text_arrives_unchanged(
    state: AuthView,
    s: Seq<char>,
    text: Seq<char>,
    most: int,
)
    requires
        forall|i: int| 0 <= i < text.len() ==> step_takes(state, most, #[trigger] text[i]),
        s.len() <= most,
    ensures
        s.len() + text.len() <= most ==> inserted(state, s, text) == s + text,
        s.len() + text.len() > most ==> inserted(state, s, text) == (s + text).take(most),
    decreases text.len(),
{
    if text.len() == 0 {
        assert(s + text =~= s);
    } else {
        let rest = text.drop_last();
        assert forall|i: int| 0 <= i < rest.len() implies step_takes(
            state,
            most,
            #[trigger] rest[i],
        ) by {
            assert(rest[i] == text[i]);
        }
        law_allowed_text_arrives_unchanged(state, s, rest, most);
        assert(step_takes(state, most, text[text.len() - 1]));
        assert((s + rest).push(text.last()) =~= s + text);
        if s.len() + text.len() > most {
            assert((s + text).take(most) =~= (s + rest).take(most));
            assert((s + rest).take((s + rest).len() as int) =~= s + rest);
        }
    }
}

/// A character that a step does not take is left out, wherever it stands, and takes
/// no room from the others: a phone number has no other characters than digits,
/// spaces, hyphens and a plus sign.
pub proof fn law_other_characters_are_left_out(
    state: AuthView,
    s: Seq<char>,
    ahead: Seq<char>,
    c: char,
    behind: Seq<char>,
)
    requires
        forall|most: int| !#[trigger] step_takes(state, most, c),
        state is WaitPhoneNumber ==> c != '+',
    ensures
        inserted(state, s, ahead + seq![c] + behind) == inserted(state, s, ahead + behind),
    decreases behind.len(),
{
    let whole = ahead + seq![c] + behind;
    assert(!step_takes(state, 32, c) && !step_takes(state, 16, c) && !step_takes(state, 128, c));
    if behind.len() == 0 {
        assert(whole.drop_last() =~= ahead);
        assert(whole.last() == c);
        assert(ahead + behind =~= ahead);
    } else {
        law_other_characters_are_left_out(state, s, ahead, c, behind.drop_last());
        assert(whole.drop_last() =~= ahead + seq![c] + behind.drop_last());
        assert((ahead + behind).drop_last() =~= ahead + behind.drop_last());
        assert(whole.last() == behind.last() && (ahead + behind).last() == behind.last());
    }
}

/// A plus sign is taken into a phone number that holds neither a digit nor a plus sign
/// yet and has room for it, and left out of any other.
pub proof fn law_plus_sign_comes_first(s: Seq<char>)
    ensures
        ({
            let free = forall|i: int|
                0 <= i < s.len() ==> !('0' <= #[trigger] s[i] <= '9') && s[i] != '+';
            let typed = inserted(AuthView::WaitPhoneNumber, s, seq!['+']);
            if free && s.len() < 32 {
                typed == s.push('+')
            } else {
                typed == s
            }
        }),
{
    let text = seq!['+'];
    assert(text.drop_last() =~= Seq::empty());
    assert(inserted(AuthView::WaitPhoneNumber, s, text.drop_last()) == s);
}

/// Nothing is typed by an empty text, and what was typed before stays in front.
pub proof fn law_typing_goes_behind_what_is_there(state: AuthView, s: Seq<char>, text: Seq<char>)
    ensures
        inserted(state, s, Seq::empty()) == s,
        inserted(state, s, text).len() <= s.len() + text.len(),
        s.is_prefix_of(inserted(state, s, text)),
    decreases text.len(),
{
    if text.len() > 0 {
        law_typing_goes_behind_what_is_there(state, s, text.drop_last());
        let before = inserted(state, s, text.drop_last());
        assert(s =~= before.subrange(0, s.len() as int));
        assert(inserted(state, s, text).subrange(0, s.len() as int) =~= s);
    }
}

/// Typed or pasted text goes to the field that has the cursor and nowhere else, and
/// takes an error message away. Without a field it does nothing.
pub proof fn law_text_goes_to_the_field_with_the_cursor(w: LoginView, text: Seq<char>)
    ensures
        ({
            let next = pasted(w, text);
            &&& !w.editing() ==> next == w
            &&& w.editing() && !w.on_last ==> next == (LoginView {
                text: inserted(w.state, w.text, text),
                error: None,
                ..w
            })
            &&& w.editing() && w.on_last ==> next == (LoginView {
                last: inserted(w.state, w.last, text),
                error: None,
                ..w
            })
        }),
{
}

/// Backspace takes the last character off the field that has the cursor, does nothing
/// to an empty one, and takes an error message away.
pub proof fn law_backspace(w: LoginView)
    ensures
        ({
            let next = erased(w);
            &&& !w.on_last && w.text.len() > 0 ==> next.text == w.text.take(w.text.len() - 1)
            &&& w.on_last && w.last.len() > 0 ==> next.last == w.last.take(w.last.len() - 1)
            &&& w.on_last || w.text.len() == 0 ==> next.text == w.text
            &&& !w.on_last || w.last.len() == 0 ==> next.last == w.last
            &&& next == (LoginView { text: next.text, last: next.last, error: None, ..w })
        }),
{
    if w.text.len() > 0 {
        assert(w.text.drop_last() =~= w.text.take(w.text.len() - 1));
    }
    if w.last.len() > 0 {
        assert(w.last.drop_last() =~= w.last.take(w.last.len() - 1));
    }
}

// ---------------------------------------------------------------------------
// Requests
// ---------------------------------------------------------------------------

/// Every character of `s` is white space.
pub open spec fn all_white(s: Seq<char>) -> bool {
    forall|i: int| 0 <= i < s.len() ==> white_space(#[trigger] s[i])
}

/// `value` is not empty and has no white space at its ends.
pub open spec fn bare(value: Seq<char>) -> bool {
    &&& value.len() > 0
    &&& !white_space(value.first())
    &&& !white_space(value.last())
}

/// A code, an email address and a name are sent character for character as they were
/// typed, without the white space around them.
pub proof fn law_request_carries_what_was_typed(
    w: LoginView,
    ahead: Seq<char>,
    value: Seq<char>,
    behind: Seq<char>,
)
    requires
        !w.busy,
        w.text == ahead + value + behind,
        all_white(ahead),
        bare(value),
        all_white(behind),
    ensures
        ({
            let action = after_key(w, KeyCode::Enter, false).action;
            &&& w.state is WaitCode ==> action == Some(ActionView::Login(RequestView::Code(value)))
            &&& w.state is WaitEmailCode ==> action == Some(
                ActionView::Login(RequestView::EmailCode(value)),
            )
            &&& w.state is WaitEmail && value.contains('@') ==> action == Some(
                ActionView::Login(RequestView::Email(value)),
            )
            &&& w.state is WaitRegistration && w.on_last ==> {
                &&& action matches Some(
                    ActionView::Login(RequestView::Registration { first, last }),
                )
                &&& first == value
                &&& bare(w.last) || w.last.len() == 0 ==> last == w.last
            }
        }),
{
    law_trimming_takes_off_white_space_around_a_text(ahead, value, behind);
    if bare(w.last) {
        law_trimming_keeps_what_has_no_white_space_around_it(w.last);
    }
}

/// The last name of a new account is sent without the white space around it.
pub proof fn law_last_name_is_sent_as_typed(
    w: LoginView,
    first: Seq<char>,
    last: Seq<char>,
    ahead: Seq<char>,
    value: Seq<char>,
    behind: Seq<char>,
)
    requires
        w.state is WaitRegistration,
        after_key(w, KeyCode::Enter, false).action == Some(
            ActionView::Login(RequestView::Registration { first, last }),
        ),
        w.last == ahead + value + behind,
        all_white(ahead),
        value.len() == 0 || bare(value),
        all_white(behind),
    ensures
        last == value,
        w.on_last,
{
    if value.len() == 0 {
        assert forall|i: int| 0 <= i < w.last.len() implies white_space(#[trigger] w.last[i]) by {
            if i < ahead.len() {
                assert(w.last[i] == ahead[i]);
            } else {
                assert(w.last[i] == behind[i - ahead.len()]);
            }
        }
        law_trimming_keeps_what_has_no_white_space_around_it(w.last);
        assert(last =~= value);
    } else {
        law_trimming_takes_off_white_space_around_a_text(ahead, value, behind);
    }
}

/// What is dialled of a phone number: every digit and plus sign, in the order in which
/// they were typed, and nothing else.
pub proof fn law_digits_and_plus_signs_are_dialled(a: Seq<char>, c: char)
    ensures
        dialled(Seq::empty()).len() == 0,
        '0' <= c <= '9' || c == '+' ==> dialled(a.push(c)) == dialled(a).push(c),
        !('0' <= c <= '9' || c == '+') ==> dialled(a.push(c)) == dialled(a),
{
    reveal(Seq::filter);
    assert(a.push(c).drop_last() =~= a);
}

/// White space is not dialled, so that it does not matter where it stands.
proof fn lemma_white_space_is_not_dialled(a: Seq<char>, b: Seq<char>)
    requires
        all_white(b),
    ensures
        dialled(a + b) == dialled(a),
    decreases b.len(),
{
    if b.len() == 0 {
        assert(a + b =~= a);
    } else {
        let rest = b.drop_last();
        assert forall|i: int| 0 <= i < rest.len() implies white_space(#[trigger] rest[i]) by {
            assert(rest[i] == b[i]);
        }
        lemma_white_space_is_not_dialled(a, rest);
        assert(white_space(b[b.len() - 1]));
        assert(a + b =~= (a + rest).push(b.last()));
        law_digits_and_plus_signs_are_dialled(a + rest, b.last());
    }
}

/// What is dialled of two texts is dialled of both together.
proof fn lemma_dialled_adds(a: Seq<char>, b: Seq<char>)
    ensures
        dialled(a + b) == dialled(a) + dialled(b),
    decreases b.len(),
{
    if b.len() == 0 {
        assert(a + b =~= a);
        reveal(Seq::filter);
        assert(dialled(a) + dialled(b) =~= dialled(a));
    } else {
        lemma_dialled_adds(a, b.drop_last());
        assert(a + b =~= (a + b.drop_last()).push(b.last()));
        assert(b =~= b.drop_last().push(b.last()));
        law_digits_and_plus_signs_are_dialled(a + b.drop_last(), b.last());
        law_digits_and_plus_signs_are_dialled(b.drop_last(), b.last());
        assert(dialled(a + b) =~= dialled(a) + dialled(b));
    }
}

/// A phone number is sent with all the digits and plus signs that were typed when
/// there are at least five of them, and refused otherwise.
pub proof fn law_phone_number_is_sent_with_all_its_digits(w: LoginView)
    requires
        w.state is WaitPhoneNumber,
        w.phone_entry,
        !w.busy,
    ensures
        ({
            let outcome = after_key(w, KeyCode::Enter, false);
            if dialled(w.text).len() >= 5 {
                outcome.action == Some(ActionView::Login(RequestView::Phone(dialled(w.text))))
            } else {
                &&& outcome.action is None
                &&& outcome.window == (LoginView {
                    error: Some("Include the country code, for example +1…"@),
                    ..w
                })
            }
        }),
{
    law_trimmed_has_no_white_space_at_its_ends(w.text);
    let (from, to) = choose|from: int, to: int| #[trigger]
        white_around(w.text, from, to) && trimmed(w.text) == w.text.subrange(from, to);
    let (ahead, value, behind) = (
        w.text.subrange(0, from),
        w.text.subrange(from, to),
        w.text.subrange(to, w.text.len() as int),
    );
    assert(w.text =~= ahead + value + behind);
    assert forall|i: int| 0 <= i < ahead.len() implies white_space(#[trigger] ahead[i]) by {
        assert(ahead[i] == w.text[i]);
    }
    assert forall|i: int| 0 <= i < behind.len() implies white_space(#[trigger] behind[i]) by {
        assert(behind[i] == w.text[to + i]);
    }
    lemma_white_space_is_not_dialled(ahead + value, behind);
    lemma_dialled_adds(ahead, value);
    lemma_white_space_is_not_dialled(Seq::empty(), ahead);
    assert(Seq::empty() + ahead =~= ahead);
    law_digits_and_plus_signs_are_dialled(Seq::empty(), ' ');
    assert(dialled(ahead) + dialled(value) =~= dialled(value));
}

/// A request that goes out makes the window wait and takes an error message away; it
/// changes nothing else, so that what was typed is still there.
pub proof fn law_sending_only_makes_the_window_wait(
    w: LoginView,
    key: KeyCode,
    control_held: bool,
    request: RequestView,
)
    requires
        after_key(w, key, control_held).action == Some(ActionView::Login(request)),
    ensures
        after_key(w, key, control_held).window == (LoginView { busy: true, error: None, ..w }),
        key == KeyCode::Enter,
        !w.busy,
{
}

/// Input that is missing is not sent but asked for: an email address without an `@`,
/// an empty password, and any other field with nothing in it but white space.
pub proof fn law_missing_input_is_asked_for(w: LoginView)
    requires
        !w.busy,
        w.editing(),
    ensures
        ({
            let outcome = after_key(w, KeyCode::Enter, false);
            let asked = LoginView { error: Some("This field is required."@), ..w };
            &&& w.state is WaitEmail && !w.text.contains('@') ==> outcome.action is None
                && outcome.window == (LoginView {
                error: Some("Enter an email address."@),
                ..w
            })
            &&& w.state is WaitPassword && w.text.len() == 0 ==> outcome.action is None
                && outcome.window == asked
            &&& (w.state is WaitCode || w.state is WaitEmailCode || (w.state is WaitRegistration
                && w.on_last)) && all_white(w.text) ==> outcome.action is None && outcome.window
                == asked
        }),
{
    if all_white(w.text) {
        law_trimming_keeps_what_has_no_white_space_around_it(w.text);
    }
    if w.state is WaitEmail && !w.text.contains('@') {
        law_trimmed_has_no_white_space_at_its_ends(w.text);
        let value = submission(w);
        if value.contains('@') {
            let (from, to) = choose|from: int, to: int| #[trigger]
                white_around(w.text, from, to) && trimmed(w.text) == w.text.subrange(
                    from,
                    to,
                );
            let i = choose|i: int| 0 <= i < value.len() && value[i] == '@';
            assert(w.text[from + i] == '@');
        }
    }
}

// ---------------------------------------------------------------------------
// Keys and events
// ---------------------------------------------------------------------------

/// The program ends on Ctrl-C and Ctrl-Q, and on Esc and `q` where there is no field,
/// and on no other key; the window stays as it is then.
pub proof fn law_only_these_keys_quit(w: LoginView, key: KeyCode, control_held: bool)
    ensures
        ({
            let outcome = after_key(w, key, control_held);
            let ends = (control_held && (key == KeyCode::Char('c') || key == KeyCode::Char('q')))
                || (!w.editing() && (key == KeyCode::Esc || key == KeyCode::Char('q')));
            &&& outcome.action == Some(ActionView::Quit) <==> ends
            &&& ends ==> outcome.window == w && !outcome.redraw
            // The screen is drawn again after every other key, unless a request is on
            // its way.
            &&& outcome.redraw <==> !ends && !w.busy
        }),
{
}

/// Ctrl makes a difference with `c` and `q` only: with any other key the window does
/// what it does without Ctrl.
pub proof fn law_control_is_for_quitting(w: LoginView, key: KeyCode)
    requires
        key != KeyCode::Char('c'),
        key != KeyCode::Char('q'),
    ensures
        after_key(w, key, true) == after_key(w, key, false),
{
}

/// In the menu Up selects the QR code, Down the phone number, and Enter takes what is
/// selected: a QR code is requested, or the empty field for the phone number opens.
/// Any other key that does not end the program does nothing.
pub proof fn law_menu_keys(w: LoginView, key: KeyCode)
    requires
        w.state is WaitPhoneNumber,
        !w.phone_entry,
        !w.busy,
        key != KeyCode::Esc,
        key != KeyCode::Char('q'),
    ensures
        ({
            let outcome = after_key(w, key, false);
            &&& key == KeyCode::Up ==> outcome.window == (LoginView { qr_selected: true, ..w })
            &&& key == KeyCode::Down ==> outcome.window == (LoginView { qr_selected: false, ..w })
            &&& key == KeyCode::Enter && w.qr_selected ==> {
                &&& outcome.window == (LoginView { busy: true, error: None, ..w })
                &&& outcome.action == Some(ActionView::Login(RequestView::Qr))
            }
            &&& key == KeyCode::Enter && !w.qr_selected ==> {
                &&& outcome.window.phone_entry && outcome.window.text.len() == 0
                &&& outcome.window.error is None
                &&& outcome.window == (LoginView {
                    phone_entry: true,
                    text: outcome.window.text,
                    error: None,
                    ..w
                })
            }
            &&& key != KeyCode::Up && key != KeyCode::Down && key != KeyCode::Enter
                ==> outcome.window == w
            &&& !(key == KeyCode::Enter && w.qr_selected) ==> outcome.action is None
        }),
{
}

/// In a field a character is typed, Backspace takes one back, Tab switches between the
/// names of a new account, Esc leads from the phone number back to the menu, and any
/// other key but Enter does nothing.
pub proof fn law_field_keys(w: LoginView, key: KeyCode)
    requires
        w.editing(),
        !w.busy,
        key != KeyCode::Enter,
    ensures
        ({
            let outcome = after_key(w, key, false);
            &&& outcome.action is None
            &&& key matches KeyCode::Char(c) ==> outcome.window == pasted(w, seq![c])
            &&& key == KeyCode::Backspace ==> outcome.window == erased(w)
            &&& key == KeyCode::Tab && w.state is WaitRegistration ==> outcome.window == (LoginView {
                on_last: !w.on_last,
                ..w
            })
            &&& key == KeyCode::Tab && !(w.state is WaitRegistration) ==> outcome.window == w
            &&& key == KeyCode::Esc && w.phone_entry ==> outcome.window == (LoginView {
                phone_entry: false,
                qr_selected: false,
                error: None,
                ..w
            })
            &&& key == KeyCode::Esc && !w.phone_entry ==> outcome.window == w
            &&& key == KeyCode::Up || key == KeyCode::Down || key == KeyCode::Other
                ==> outcome.window == w
        }),
{
}

/// Enter in the first name of a new account leads to the last name and changes nothing
/// else.
pub proof fn law_enter_leads_from_the_first_name_to_the_last(w: LoginView)
    requires
        w.state is WaitRegistration,
        !w.on_last,
        !w.busy,
    ensures
        after_key(w, KeyCode::Enter, false).window == (LoginView { on_last: true, ..w }),
        after_key(w, KeyCode::Enter, false).action is None,
{
}

/// Where there is neither a field nor the menu, a key does nothing to the window.
pub proof fn law_other_steps_take_no_keys(w: LoginView, key: KeyCode, control_held: bool)
    requires
        w.state is Starting || w.state is WaitOtherDevice || w.state is Ready,
    ensures
        after_key(w, key, control_held).window == w,
        after_key(w, key, control_held).action is None || after_key(w, key, control_held).action
            == Some(ActionView::Quit),
{
}

/// A key or pasted text is handled by the window as it is once it follows the
/// authorization state; other events do nothing at all. Pasted text sends nothing.
pub proof fn law_events(w: LoginView, auth: AuthView, event: EventView)
    ensures
        after_event(w, None, auth).window == w && !after_event(w, None, auth).redraw,
        after_event(w, None, auth).action is None,
        event is Other ==> after_event(w, Some(event), auth) == after_event(w, None, auth),
        event matches EventView::Key(key, modifiers) ==> after_event(w, Some(event), auth)
            == after_key(synced(w, auth), key, modifiers.control),
        event matches EventView::Paste(text) ==> {
            let outcome = after_event(w, Some(event), auth);
            &&& outcome.action is None
            &&& !synced(w, auth).busy ==> outcome.redraw && outcome.window == pasted(
                synced(w, auth),
                text,
            )
            &&& synced(w, auth).busy ==> !outcome.redraw && outcome.window == synced(w, auth)
        },
{
}

/// A failed request is shown and no longer waited for, unless the sign-in is over. No
/// other action touches the window, but for the state that it follows.
pub proof fn law_actions(w: LoginView, auth: AuthView, action: ActionView)
    ensures
        ({
            let outcome = after_action(w, action, auth);
            let now = synced(w, auth);
            &&& outcome.action is None
            &&& action matches ActionView::LoginFailed(message) ==> !(auth is Ready) ==> outcome.redraw
                && outcome.window == (LoginView { error: Some(message), busy: false, ..now })
            &&& !(action is LoginFailed) || auth is Ready ==> !outcome.redraw && outcome.window
                == now
        }),
{
}

/// A redraw that was asked for stays asked for, and asking changes nothing else.
pub proof fn law_redraw_is_remembered(context: ContextView, needed: bool)
    ensures
        ({
            let next = context.redraw(needed);
            &&& next.dirty <==> context.dirty || needed
            &&& next.td_auth == context.td_auth && next.focused == context.focused
            &&& next.show_title_bar == context.show_title_bar
            &&& next.show_status_bar == context.show_status_bar
        }),
{
}

} // verus!
