//! A lambda calculus interpreter: programs of assignments (`x := body`)
//! and statements, reduced step by step.

pub mod args;
pub mod assignments;
pub mod interpreter;
pub mod invocations;
pub mod modules;
pub mod nodes;
pub mod opts;
pub mod parsing;
pub mod repl;
pub mod runner;
pub mod stdlib;
pub mod text;
pub mod types;
pub mod utils;
pub mod wasm;

pub use utils::find_closing_delim;

use vstd::prelude::*;

use crate::interpreter::InterpretingError;
use crate::types::{opt_string_view, CreatedAt, ErrV, ParsingError, Span};

verus! {

/// The character that starts an abstraction.
pub const LAMBDA_CHAR: char = 'λ';

/// The characters that may start an abstraction.
pub const VALID_LAMBDA_CHARACTERS: [char; 2] = ['L', 'λ'];

pub const EXTENDED_SYNTAX: bool = true;

/// Where the main program of a project lives.
pub const MAIN_FILE_PATH: &'static str = "/src/main.lmda";

/// An error of any stage of the interpreter.
#[derive(Debug, Clone)]
pub struct KalidoscopeError {
    pub(crate) src: String,
    pub(crate) msg: Option<String>,
    pub(crate) error_span: Span,
    pub(crate) created_at: Option<CreatedAt>,
}

impl View for KalidoscopeError {
    type V = ErrV;

    open(crate) spec fn view(&self) -> ErrV {
        ErrV { src: self.src@, msg: opt_string_view(self.msg), span: self.error_span, created_at: self.created_at }
    }
}

impl KalidoscopeError {
    pub fn new(src: &str, msg: Option<&str>, error_span: Span, created_at: Option<CreatedAt>) -> (r: Self)
        ensures
            r@ == (ErrV {
                src: src@,
                msg: match msg {
                    Some(m) => Some(m@),
                    None => None,
                },
                span: error_span,
                created_at,
            }),
    {
        KalidoscopeError {
            src: crate::text::string_of(src),
            msg: crate::types::option_string_of(msg),
            error_span,
            created_at,
        }
    }

    /// An error that only has a message: no source, an empty span at 0.
    pub fn msg(msg: String) -> (r: Self)
        ensures
            r@ == (ErrV { src: Seq::empty(), msg: Some(msg@), span: Span { start: 0, end: 0 }, created_at: None }),
    {
        let r = KalidoscopeError { msg: Some(msg), error_span: Span::new(0, 0), src: String::new(), created_at: None };
        assert(r@.src =~= Seq::<char>::empty());
        r
    }

    pub fn src(&self) -> (r: &String)
        ensures
            r@ == self@.src,
    {
        &self.src
    }

    pub fn message(&self) -> (r: &Option<String>)
        ensures
            opt_string_view(*r) == self@.msg,
    {
        &self.msg
    }

    pub fn error_span(&self) -> (r: Span)
        ensures
            r == self@.span,
    {
        self.error_span
    }

    /// The text this error shows (`KalidoscopeError`).
    pub fn to_string(&self) -> (r: String)
        ensures
            r@ == "KalidoscopeError"@,
    {
        crate::text::string_of("KalidoscopeError")
    }

    /// The same error, as one of the interpreter's.
    pub fn from_parsing_error(value: ParsingError) -> (r: Self)
        ensures
            r@ == value@,
    {
        KalidoscopeError {
            src: value.src,
            msg: value.msg,
            error_span: value.error_span,
            created_at: value.created_at,
        }
    }

    /// The same error without its help text.
    pub fn from_interpreting_error(value: InterpretingError) -> (r: Self)
        ensures
            r@ == value@.err,
    {
        KalidoscopeError {
            src: value.src,
            msg: value.msg,
            error_span: value.error_span,
            created_at: value.created_at,
        }
    }
}

} // verus!
