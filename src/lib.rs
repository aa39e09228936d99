//! A small POSIX-flavoured shell: a resumable lexer, a parser that yields one
//! logical command unit at a time, and the decision logic of an execution
//! engine whose operating-system work is performed by its caller.
pub mod command;
pub mod engine;
pub mod errors;
pub mod frontend;
pub mod session;
