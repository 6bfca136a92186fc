//! Sign-in screen of a terminal Telegram client, with the bidirectional text
//! isolation pass that runs over every rendered frame.
pub mod action;
pub mod app_context;
pub mod bidi_isolate;
pub mod bidi_laws;
pub mod buffer;
pub mod geometry;
pub mod login_laws;
pub mod login_model;
pub mod login_phase;
pub mod login_screen;
pub mod login_screen_laws;
pub mod login_step_laws;
pub mod login_window;
pub mod qr;
pub mod style;
pub mod text;
pub mod text_laws;
pub mod tui;
