//! Command-line parsing, redirection handling, command lookup and
//! completion logic of a small interactive Unix shell.

pub mod autocomplete;
pub mod number;
pub mod order;
pub mod parser;
pub mod pipeline;
pub mod shell;
pub mod streams;
pub mod text;
