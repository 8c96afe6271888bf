//! The logic of a small screen locker: its settings, what its surfaces show and how
//! it reacts to keys, the pointer, the clock and the result of an authentication.
pub mod args;
pub mod canvas;
pub mod clock_laws;
pub mod config;
pub mod config_laws;
pub mod fits;
pub mod font;
pub mod font_laws;
pub mod number;
pub mod render;
pub mod render_laws;
pub mod session;
pub mod session_behavior;
pub mod session_laws;
pub mod settings_laws;
pub mod start_laws;
pub mod text;
pub mod text_laws;
