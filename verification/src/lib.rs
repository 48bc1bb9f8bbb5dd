//! The core of `find`: an expression of predicates, read from a command line and evaluated on the
//! entries of a file hierarchy.
pub mod command;
pub mod error;
pub mod eval;
pub mod glob;
pub mod operand;
pub mod options;
pub mod parse;
pub mod pred;
pub mod predicates;
pub mod semantics;
pub mod spelling;
pub mod text;
pub mod time;
