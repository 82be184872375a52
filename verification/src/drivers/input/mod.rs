//! Input from the keyboard.
pub mod input_core;
