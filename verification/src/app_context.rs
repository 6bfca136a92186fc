//! What the parts of the screen share.

use crate::action::ComponentName;
use crate::login_phase::{AuthView, TdAuth};
use vstd::prelude::*;

verus! {

/// State and settings that all parts of the screen read.
pub struct AppContext {
    /// How far the sign-in has come.
    pub td_auth: TdAuth,
    /// The part of the screen that has the focus.
    pub focused: Option<ComponentName>,
    /// The screen has to be drawn again.
    pub dirty: bool,
    pub show_title_bar: bool,
    pub show_status_bar: bool,
}

/// What the shared state holds.
pub struct ContextView {
    pub td_auth: AuthView,
    pub focused: Option<ComponentName>,
    pub dirty: bool,
    pub show_title_bar: bool,
    pub show_status_bar: bool,
}

impl View for AppContext {
    type V = ContextView;

    open spec fn view(&self) -> ContextView {
        ContextView {
            td_auth: self.td_auth@,
            focused: self.focused,
            dirty: self.dirty,
            show_title_bar: self.show_title_bar,
            show_status_bar: self.show_status_bar,
        }
    }
}

impl ContextView {
    /// The same state, and the screen has to be drawn again if `needed`.
    pub open spec fn redraw(self, needed: bool) -> ContextView {
        ContextView { dirty: self.dirty || needed, ..self }
    }
}

impl AppContext {
    /// Asks for the screen to be drawn again.
    pub fn mark_dirty(&mut self)
        ensures
            final(self)@ == old(self)@.redraw(true),
    {
        self.dirty = true;
    }
}

} // verus!
