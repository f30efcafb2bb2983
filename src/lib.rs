//! The core of an interactive shell: a tokenizer for command lines with
//! quotes and escapes, the extraction of output redirections, and the
//! classification of a line into a command, with the text the shell writes
//! for each outcome.

pub mod cleaner;
pub mod command;
pub mod number;
pub mod redirect;
pub mod report;
pub mod scanner;
pub mod search;
pub mod text;
pub mod tokenizer;
