//! Verified core of a keyboard firmware and its UF2 packaging tool.

pub mod args;
pub mod clock;
pub mod debounce;
pub mod instrument;
pub mod keymap;
pub mod leds;
pub mod matrix;
pub mod uf2;
