//! A verified interpreter for an eight-instruction language that runs on a
//! fixed tape of byte cells.
//!
//! - [`machine`] is the mathematical model: the state of a run and the
//!   function that takes a state to the next one.
//! - [`brackets`] says which `]` closes a `[`, and finds it.
//! - [`text`] says what whitespace is, and cleans program and output text.
//! - [`engine`] is the executable engine, proved to follow the model step
//!   for step.
//! - [`interpreter`] runs a whole program on a given input.
//! - [`laws`] holds what is proved of the model.

pub mod brackets;
pub mod engine;
pub mod interpreter;
pub mod laws;
pub mod machine;
pub mod text;

pub use engine::Engine;
pub use interpreter::{interpret, Outcome};
pub use machine::{Event, Machine, Status, TAPE_LENGTH};
