//! The PS/2 keyboard.
pub mod keyboard;
