pub mod chars;
pub mod engine;
pub mod lexer;
pub mod strip;
pub mod subst;
pub mod table;
pub mod text;

use vstd::prelude::*;

verus! {

/// The ways a preprocessing run can fail.
#[derive(Debug, PartialEq, Eq)]
pub enum PreprocessorError {
    FileNotFound(String),
    FileNotValidUtf8(String),
    UnknownDirective(String),
    IncludeIncorrectArgs,
    MacroNoParenthesis,
    MacroIncorrectArgs(usize, usize),
}

} // verus!
