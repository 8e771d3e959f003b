//! A parser for the TGFF (Task Graphs For Free) format, a text format that
//! describes task graphs and accompanying data tables for scheduling and
//! allocation research.
//!
//! [`parse`] turns a text into its [`Content`]; a [`Parser`] does the same
//! step by step. What parsing means is laid down in [`grammar`] as
//! functions of the text, and every step of the parser is proved to do what
//! is laid down there. [`laws`] and [`blanks`] hold what follows for every
//! text.

pub mod blanks;
pub mod chars;
pub mod content;
pub mod dictionary;
pub mod error;
pub mod grammar;
pub mod laws;
pub mod numbers;
pub mod parser;
pub mod reals;

pub use content::{Arc, Column, Content, Deadline, Graph, Table, Task};
pub use dictionary::Dictionary;
pub use error::Error;
pub use parser::{parse, Parser};
pub use reals::Real;
