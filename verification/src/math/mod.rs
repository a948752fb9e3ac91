//! The number model, the positional codec and the equation editor.

pub mod base;
pub mod equation;
pub mod integer;
pub mod number;
pub mod operation;
pub mod order;
pub mod parsefmt;

pub use integer::NumComponent;
pub use number::Num;
