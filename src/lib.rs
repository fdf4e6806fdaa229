//! A 4x4 matrix keypad scanner for small boards, verified with Verus.
//!
//! The keypad's rows and columns are reached through the line traits of
//! [`lines`]; [`numpad::Numpad`] drives one row at a time and reports every
//! held key as a bit of a [`buttons::Button`] mask.

pub mod bitstring;
pub mod buttons;
pub mod lines;
pub mod numpad;
pub mod patterns;
