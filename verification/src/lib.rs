//! Display-profile logic of a desktop display controller: hotkey parsing,
//! wide-string conversion, display-mode lists, the profile state machine and
//! the order of the driver calls that apply or restore settings.
pub mod text;
pub mod hotkey;
pub mod display;
pub mod state;
pub mod apply;
pub mod laws;
