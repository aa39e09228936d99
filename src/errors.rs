use vstd::prelude::*;

verus! {

/// Errors reported while lexing one physical line.
#[derive(Debug, PartialEq, Eq)]
pub enum LexError {
    SyntaxError { message: String, line: usize, range: (usize, usize) },
}

/// Every error the shell core can report.
#[derive(Debug, PartialEq, Eq)]
pub enum ShellError {
    CommandNotFound(String),
    ParseError(String),
    LexError(LexError),
    InternalError(String),
    EngineError(String),
}

/// An error as a value of the model: its kind and message.
pub enum ErrorKind {
    CommandNotFound(Seq<char>),
    ParseError(Seq<char>),
    SyntaxError { message: Seq<char>, line: nat, start: nat, end: nat },
    InternalError(Seq<char>),
    EngineError(Seq<char>),
}

impl ShellError {
    pub open spec fn kind(&self) -> ErrorKind {
        match self {
            ShellError::CommandNotFound(s) => ErrorKind::CommandNotFound(s@),
            ShellError::ParseError(s) => ErrorKind::ParseError(s@),
            ShellError::LexError(LexError::SyntaxError { message, line, range }) => ErrorKind::SyntaxError {
                message: message@,
                line: *line as nat,
                start: range.0 as nat,
                end: range.1 as nat,
            },
            ShellError::InternalError(s) => ErrorKind::InternalError(s@),
            ShellError::EngineError(s) => ErrorKind::EngineError(s@),
        }
    }
}

} // verus!
