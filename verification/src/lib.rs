//! An exact, keystroke-driven calculator core: arbitrary-precision rational
//! numbers, their rendering in base 2, 10 and 16, and the editing state
//! machine that sits between the keyboard and the display.

pub mod cli;
pub mod command;
pub mod config;
pub mod math;
pub mod minicalc;
pub mod text;
pub mod variables;
