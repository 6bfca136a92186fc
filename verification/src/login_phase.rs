//! How far the sign-in has come.

use vstd::prelude::*;

verus! {

/// Authorization state, as far as the sign-in screen needs it.
///
/// The type has no `Debug`: a login link is a credential, and
/// [`TdAuth::debug_text`] keeps it out of logs.
pub enum TdAuth {
    /// Parameters have not been applied yet.
    Starting,
    /// Phone number or QR login can be requested.
    WaitPhoneNumber,
    /// A `tg://login?token=...` link is ready to show as a QR code.
    WaitOtherDevice { link: String },
    /// Telegram sent a login code.
    WaitCode,
    /// Cloud password (2FA).
    WaitPassword,
    /// Email address required.
    WaitEmail,
    /// Email verification code.
    WaitEmailCode,
    /// New account name.
    WaitRegistration,
    /// Session is authorized.
    Ready,
}

/// What an authorization state holds.
pub enum AuthView {
    Starting,
    WaitPhoneNumber,
    WaitOtherDevice { link: Seq<char> },
    WaitCode,
    WaitPassword,
    WaitEmail,
    WaitEmailCode,
    WaitRegistration,
    Ready,
}

impl View for TdAuth {
    type V = AuthView;

    open spec fn view(&self) -> AuthView {
        match self {
            TdAuth::Starting => AuthView::Starting,
            TdAuth::WaitPhoneNumber => AuthView::WaitPhoneNumber,
            TdAuth::WaitOtherDevice { link } => AuthView::WaitOtherDevice { link: link@ },
            TdAuth::WaitCode => AuthView::WaitCode,
            TdAuth::WaitPassword => AuthView::WaitPassword,
            TdAuth::WaitEmail => AuthView::WaitEmail,
            TdAuth::WaitEmailCode => AuthView::WaitEmailCode,
            TdAuth::WaitRegistration => AuthView::WaitRegistration,
            TdAuth::Ready => AuthView::Ready,
        }
    }
}

impl Clone for TdAuth {
    fn clone(&self) -> (copy: Self)
        ensures
            copy@ == self@,
    {
        match self {
            TdAuth::Starting => TdAuth::Starting,
            TdAuth::WaitPhoneNumber => TdAuth::WaitPhoneNumber,
            TdAuth::WaitOtherDevice { link } => TdAuth::WaitOtherDevice { link: link.clone() },
            TdAuth::WaitCode => TdAuth::WaitCode,
            TdAuth::WaitPassword => TdAuth::WaitPassword,
            TdAuth::WaitEmail => TdAuth::WaitEmail,
            TdAuth::WaitEmailCode => TdAuth::WaitEmailCode,
            TdAuth::WaitRegistration => TdAuth::WaitRegistration,
            TdAuth::Ready => TdAuth::Ready,
        }
    }
}

impl Default for TdAuth {
    fn default() -> (state: Self)
        ensures
            state@ == AuthView::Starting,
    {
        TdAuth::Starting
    }
}

impl PartialEq for TdAuth {
    fn eq(&self, other: &Self) -> (same: bool) {
        match (self, other) {
            (TdAuth::Starting, TdAuth::Starting) => true,
            (TdAuth::WaitPhoneNumber, TdAuth::WaitPhoneNumber) => true,
            (
                TdAuth::WaitOtherDevice { link },
                TdAuth::WaitOtherDevice { link: other_link },
            ) => *link == *other_link,
            (TdAuth::WaitCode, TdAuth::WaitCode) => true,
            (TdAuth::WaitPassword, TdAuth::WaitPassword) => true,
            (TdAuth::WaitEmail, TdAuth::WaitEmail) => true,
            (TdAuth::WaitEmailCode, TdAuth::WaitEmailCode) => true,
            (TdAuth::WaitRegistration, TdAuth::WaitRegistration) => true,
            (TdAuth::Ready, TdAuth::Ready) => true,
            _ => false,
        }
    }
}

impl vstd::std_specs::cmp::PartialEqSpecImpl for TdAuth {
    open spec fn obeys_eq_spec() -> bool {
        true
    }

    open spec fn eq_spec(&self, other: &Self) -> bool {
        self@ == other@
    }
}

impl Eq for TdAuth {

}

/// How an authorization state is written in a log: by its name, with a login
/// link left out.
pub open spec fn debug_name(state: AuthView) -> Seq<char> {
    match state {
        AuthView::Starting => "Starting"@,
        AuthView::WaitPhoneNumber => "WaitPhoneNumber"@,
        AuthView::WaitOtherDevice { .. } => "WaitOtherDevice { link: [redacted] }"@,
        AuthView::WaitCode => "WaitCode"@,
        AuthView::WaitPassword => "WaitPassword"@,
        AuthView::WaitEmail => "WaitEmail"@,
        AuthView::WaitEmailCode => "WaitEmailCode"@,
        AuthView::WaitRegistration => "WaitRegistration"@,
        AuthView::Ready => "Ready"@,
    }
}

impl TdAuth {
    /// How the state is written in a log. A login link is a credential and is
    /// left out.
    pub fn debug_text(&self) -> (text: &'static str)
        ensures
            text@ == debug_name(self@),
    {
        match self {
            TdAuth::Starting => "Starting",
            TdAuth::WaitPhoneNumber => "WaitPhoneNumber",
            TdAuth::WaitOtherDevice { .. } => "WaitOtherDevice { link: [redacted] }",
            TdAuth::WaitCode => "WaitCode",
            TdAuth::WaitPassword => "WaitPassword",
            TdAuth::WaitEmail => "WaitEmail",
            TdAuth::WaitEmailCode => "WaitEmailCode",
            TdAuth::WaitRegistration => "WaitRegistration",
            TdAuth::Ready => "Ready",
        }
    }

    /// True when the user has to do something before the chat shell can open.
    pub fn needs_user(&self) -> (needed: bool)
        ensures
            needed == !(self@ is Starting || self@ is Ready),
    {
        !matches!(self, TdAuth::Starting | TdAuth::Ready)
    }
}

/// The log text of a state tells nothing of its login link.
pub proof fn law_login_link_is_redacted(link: Seq<char>, other: Seq<char>)
    ensures
        debug_name(AuthView::WaitOtherDevice { link }) == debug_name(
            AuthView::WaitOtherDevice { link: other },
        ),
{
}

} // verus!
