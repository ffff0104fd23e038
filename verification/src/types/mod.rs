//! Syntax-tree types of lambda expressions, their errors and their spans.

use vstd::prelude::*;

pub mod node;
pub mod parse;
pub mod reduce;
pub mod rewrite;
pub mod laws;

pub use node::{AbstractionNode, ApplicationNode, Node, VariableNode};

use crate::interpreter::{opt_flag, read_opt_flag};
use crate::opts::{DefaultOpts, Opts};

verus! {

/// A region of the source text: `start` up to (not including) `end`.
#[derive(Debug, Clone, Copy, PartialEq, Eq, Structural)]
pub struct Span {
    pub start: usize,
    pub end: usize,
}

/// The span with the given bounds, computed as integers.
pub open spec fn mk_span(start: int, end: int) -> Span {
    Span { start: start as usize, end: end as usize }
}

impl Span {
    pub fn new(start: usize, end: usize) -> (r: Self)
        ensures
            r.start == start,
            r.end == end,
    {
        Self { start, end }
    }

    pub open spec fn spec_len(&self) -> int {
        self.end - self.start
    }

    pub fn start(&self) -> (r: usize)
        ensures
            r == self.start,
    {
        self.start
    }

    pub fn end(&self) -> (r: usize)
        ensures
            r == self.end,
    {
        self.end
    }

    /// The number of positions the span covers.
    pub fn len(&self) -> (r: usize)
        requires
            self.start <= self.end,
        ensures
            r == self.end - self.start,
    {
        self.end - self.start
    }

    /// Whether the span covers no position.
    pub fn is_empty(&self) -> (r: bool)
        requires
            self.start <= self.end,
        ensures
            r == (self.start == self.end),
    {
        self.len() == 0
    }
}

impl From<std::ops::Range<usize>> for Span {
    fn from(value: std::ops::Range<usize>) -> (r: Span) {
        Span::new(value.start, value.end)
    }
}

impl vstd::std_specs::convert::FromSpecImpl<std::ops::Range<usize>> for Span {
    open spec fn obeys_from_spec() -> bool {
        true
    }

    open spec fn from_spec(v: std::ops::Range<usize>) -> Span {
        Span { start: v.start, end: v.end }
    }
}

impl From<(usize, usize)> for Span {
    fn from(value: (usize, usize)) -> (r: Span) {
        Span::new(value.0, value.1)
    }
}

impl vstd::std_specs::convert::FromSpecImpl<(usize, usize)> for Span {
    open spec fn obeys_from_spec() -> bool {
        true
    }

    open spec fn from_spec(v: (usize, usize)) -> Span {
        Span { start: v.0, end: v.1 }
    }
}

/// How expressions are written out.
#[derive(Debug, Clone, Copy, PartialEq, Eq, Structural)]
pub struct NodeFormattingOptions {
    pub(crate) extra_delimiters: bool,
}

impl NodeFormattingOptions {
    pub fn new(extra_delimiters: bool) -> (r: Self)
        ensures
            r.extra_delimiters() == extra_delimiters,
    {
        NodeFormattingOptions { extra_delimiters }
    }

    pub open(crate) spec fn extra_delimiters(&self) -> bool {
        self.extra_delimiters
    }

    /// Whether extra delimiters are written.
    pub fn uses_extra_delimiters(&self) -> (r: bool)
        ensures
            r == self.extra_delimiters(),
    {
        self.extra_delimiters
    }

    /// The formatting that the options ask for; the option
    /// `FormatWithExtraDelimiters` must hold a boolean.
    pub fn from(value: Opts) -> (r: Self)
        requires
            opt_flag(value@, DefaultOpts::FormatWithExtraDelimiters) is Some,
        ensures
            opt_flag(value@, DefaultOpts::FormatWithExtraDelimiters) == Some(r.extra_delimiters()),
    {
        match read_opt_flag(&value, DefaultOpts::FormatWithExtraDelimiters) {
            Some(b) => NodeFormattingOptions { extra_delimiters: b },
            None => {
                proof {
                    assert(false);
                }
                NodeFormattingOptions { extra_delimiters: false }
            },
        }
    }
}

/// The place in the interpreter's own source where an error was made.
#[derive(Debug, Clone)]
pub struct CreatedAt {
    pub file: &'static str,
    pub line: u32,
    pub column: u32,
}

impl CreatedAt {
    pub fn file(&self) -> (r: &'static str)
        ensures
            r == self.file,
    {
        self.file
    }

    pub fn line(&self) -> (r: u32)
        ensures
            r == self.line,
    {
        self.line
    }

    pub fn column(&self) -> (r: u32)
        ensures
            r == self.column,
    {
        self.column
    }
}

/// What went wrong while reading a lambda expression, and where.
#[derive(Debug, Clone)]
pub struct ParsingError {
    pub(crate) src: String,
    pub(crate) msg: Option<String>,
    pub(crate) error_span: Span,
    pub(crate) created_at: Option<CreatedAt>,
}

/// The mathematical content of a `ParsingError`.
pub struct ErrV {
    pub src: Seq<char>,
    pub msg: Option<Seq<char>>,
    pub span: Span,
    pub created_at: Option<CreatedAt>,
}

pub open spec fn opt_string_view(s: Option<String>) -> Option<Seq<char>> {
    match s {
        Some(x) => Some(x@),
        None => None,
    }
}

impl View for ParsingError {
    type V = ErrV;

    open(crate) spec fn view(&self) -> ErrV {
        ErrV {
            src: self.src@,
            msg: opt_string_view(self.msg),
            span: self.error_span,
            created_at: self.created_at,
        }
    }
}

/// The error with source text `src`, message `msg` and span `start..end`.
pub open spec fn parse_err(src: Seq<char>, msg: Seq<char>, start: int, end: int) -> ErrV {
    ErrV { src, msg: Some(msg), span: mk_span(start, end), created_at: None }
}

/// The message of `ParsingError::missing_closing_delimiter`.
pub open spec fn missing_delim_msg(open_delim: char) -> Seq<char> {
    "Missing closing delimiter for "@ + seq![open_delim] + "."@
}

pub fn option_string_of(s: Option<&str>) -> (r: Option<String>)
    ensures
        opt_string_view(r) == (match s {
            Some(x) => Some(x@),
            None => None::<Seq<char>>,
        }),
{
    match s {
        Some(x) => Some(crate::text::string_of(x)),
        None => None,
    }
}

impl ParsingError {
    pub fn new(src: &str, msg: Option<&str>, error_span: Span, created_at: Option<CreatedAt>) -> (r:
        ParsingError)
        ensures
            r@.src == src@,
            r@.msg == (match msg {
                Some(x) => Some(x@),
                None => None::<Seq<char>>,
            }),
            r@.span == error_span,
            r@.created_at == created_at,
    {
        ParsingError {
            src: crate::text::string_of(src),
            msg: option_string_of(msg),
            error_span,
            created_at,
        }
    }

    /// The error for an opening delimiter at `open_idx` of `src` that is
    /// never closed; its span runs from there to the end of `src`.
    pub fn missing_closing_delimiter(
        src: &str,
        open_delim: char,
        open_idx: usize,
        created_at: Option<CreatedAt>,
    ) -> (r: Self)
        ensures
            r@ == (ErrV {
                src: src@,
                msg: Some(missing_delim_msg(open_delim)),
                span: Span { start: open_idx, end: crate::types::node::byte_len(src@) as usize },
                created_at,
            }),
    {
        let cs = crate::text::chars_of(src);
        assert(cs@.subrange(0, cs@.len() as int) == cs@);
        let end = src.len();
        let mut msg = crate::text::string_of("Missing closing delimiter for ");
        crate::text::push_char(&mut msg, open_delim);
        crate::text::append_str(&mut msg, ".");
        assert(msg@ =~= missing_delim_msg(open_delim));
        ParsingError {
            error_span: Span { start: open_idx, end },
            src: crate::text::string_from_chars(&cs, 0, cs.len()),
            msg: Some(msg),
            created_at,
        }
    }

    pub fn src(&self) -> (r: &String)
        ensures
            r@ == self@.src,
    {
        &self.src
    }

    pub fn msg(&self) -> (r: &Option<String>)
        ensures
            opt_string_view(*r) == self@.msg,
    {
        &self.msg
    }

    pub fn error_span(&self) -> (r: Span)
        ensures
            r == self@.span,
    {
        self.error_span
    }

    pub fn created_at(&self) -> (r: &Option<CreatedAt>)
        ensures
            *r == self@.created_at,
    {
        &self.created_at
    }

    /// The text this error shows (`Parsing Error`).
    pub fn to_string(&self) -> (r: String)
        ensures
            r@ == "Parsing Error"@,
    {
        crate::text::string_of("Parsing Error")
    }
}

/// What went wrong while reducing a lambda expression, and where.
#[derive(Debug, Clone)]
pub struct ReductionError {
    pub(crate) src: String,
    pub(crate) msg: Option<String>,
    pub(crate) error_span: Span,
    pub(crate) created_at: Option<CreatedAt>,
}

impl View for ReductionError {
    type V = ErrV;

    open(crate) spec fn view(&self) -> ErrV {
        ErrV {
            src: self.src@,
            msg: opt_string_view(self.msg),
            span: self.error_span,
            created_at: self.created_at,
        }
    }
}

impl ReductionError {
    pub fn new(src: &str, msg: Option<&str>, error_span: Span, created_at: Option<CreatedAt>) -> (r:
        Self)
        ensures
            r@.src == src@,
            r@.msg == (match msg {
                Some(x) => Some(x@),
                None => None::<Seq<char>>,
            }),
            r@.span == error_span,
            r@.created_at == created_at,
    {
        ReductionError {
            src: crate::text::string_of(src),
            msg: option_string_of(msg),
            error_span,
            created_at,
        }
    }

    pub fn src(&self) -> (r: &String)
        ensures
            r@ == self@.src,
    {
        &self.src
    }

    pub fn msg(&self) -> (r: &Option<String>)
        ensures
            opt_string_view(*r) == self@.msg,
    {
        &self.msg
    }

    pub fn error_span(&self) -> (r: Span)
        ensures
            r == self@.span,
    {
        self.error_span
    }

    pub fn created_at(&self) -> (r: &Option<CreatedAt>)
        ensures
            *r == self@.created_at,
    {
        &self.created_at
    }

    /// The text this error shows (`Parsing Error`: reduction errors carry
    /// the same label as parsing errors).
    pub fn to_string(&self) -> (r: String)
        ensures
            r@ == "Parsing Error"@,
    {
        crate::text::string_of("Parsing Error")
    }
}

} // verus!
