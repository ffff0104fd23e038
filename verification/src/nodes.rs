//! Variables named by one character, with an optional subscript (`x`,
//! `x_1`, `x_{sub}`), read by `VariableNode::from_str`.

pub mod abstraction;

use vstd::prelude::*;

use crate::text::{append_str, chars_of, push_char, string_from_chars};
use crate::types::node::byte_len;
use crate::types::parse::{braced_cut, braced_cut_lands, braced_cut_window};
use crate::types::{mk_span, parse_err, ErrV, ParsingError, Span};

verus! {

/// A variable named by one character.
#[derive(Debug, Clone)]
pub struct VariableNode {
    pub(crate) base_ident: char,
    pub(crate) subscript: Option<String>,
    pub(crate) span: Span,
}

/// The content of a `VariableNode`.
pub struct CharVarV {
    pub base_ident: char,
    pub subscript: Option<Seq<char>>,
    pub span: Span,
}

impl View for VariableNode {
    type V = CharVarV;

    open(crate) spec fn view(&self) -> CharVarV {
        CharVarV {
            base_ident: self.base_ident,
            subscript: match self.subscript {
                Some(s) => Some(s@),
                None => None,
            },
            span: self.span,
        }
    }
}

/// The variable `VariableNode::new` makes: its span starts at `start` and
/// covers one position, or with a subscript the subscript's bytes and two
/// (`_x`) or four (`_{...}`) more.
pub open spec fn char_var(base_ident: char, subscript: Option<Seq<char>>, start: int, had_curly: bool) -> CharVarV {
    CharVarV {
        base_ident,
        subscript,
        span: match subscript {
            Some(sub) => if !had_curly {
                mk_span(start, start + byte_len(sub) + 2)
            } else {
                mk_span(start, start + byte_len(sub) + 4)
            },
            None => mk_span(start, start + 1),
        },
    }
}

/// What `VariableNode::from_str` gives for the text `s` at `start`: one
/// single-byte character; or a character, `_`, and either one character or
/// a subscript in braces. Errors span from `start` to the byte length of
/// `s`.
pub open spec fn spec_from_str(s: Seq<char>, start: int) -> Result<CharVarV, ErrV> {
    if s.len() == 0 {
        Err(parse_err(s, "Expected identifier."@, start, start + 1))
    } else if byte_len(s) == 1 {
        Ok(char_var(s[0], None, start, false))
    } else if s.len() == 1 {
        Err(parse_err(s, "Expected Variable Subscript Delimiter, found end of expression."@, start, byte_len(s)))
    } else if s[1] != '_' {
        Err(parse_err(s, "Expected Variable Subscript Delimiter, found "@ + seq![s[1]] + "."@, start, byte_len(s)))
    } else if s.len() == 2 {
        Err(
            ErrV {
                src: "Expected '{' or identifier after '_' found EOL."@,
                msg: None,
                span: mk_span(start, byte_len(s)),
                created_at: None,
            },
        )
    } else if s[2] == '{' {
        match braced_cut(s, 2) {
            Some((x, y)) => Ok(char_var(s[0], Some(s.subrange(x, y)), start, true)),
            None => Err(parse_err(s, "Closing '}' not found in variable decleration"@, start, byte_len(s))),
        }
    } else {
        Ok(char_var(s[0], Some(seq![s[2]]), start, false))
    }
}

impl VariableNode {
    /// The variable `base_ident`, with `subscript`, starting at `start`
    /// (see `char_var`).
    pub fn new(base_ident: char, subscript: Option<String>, start: usize, had_curly: bool) -> (r: Self)
        requires
            subscript matches Some(s) ==> start + 4 * s@.len() + 4 <= usize::MAX,
            start + 1 <= usize::MAX,
        ensures
            r@ == char_var(
                base_ident,
                match subscript {
                    Some(s) => Some(s@),
                    None => None,
                },
                start as int,
                had_curly,
            ),
    {
        let span = match &subscript {
            Some(sub) => {
                proof {
                    crate::types::node::lemma_encode_len(sub@);
                }
                let n = sub.as_str().len();
                if !had_curly {
                    Span::new(start, start + n + 2)
                } else {
                    Span::new(start, start + n + 4)
                }
            },
            None => Span::new(start, start + 1),
        };
        VariableNode { base_ident, subscript, span }
    }

    pub fn base_ident(&self) -> (r: char)
        ensures
            r == self@.base_ident,
    {
        self.base_ident
    }

    pub fn subscript(&self) -> (r: &Option<String>)
        ensures
            match r {
                Some(s) => self@.subscript == Some(s@),
                None => self@.subscript is None,
            },
    {
        &self.subscript
    }

    pub fn span(&self) -> (r: Span)
        ensures
            r == self@.span,
    {
        self.span
    }

    /// Reads a variable from `s`, whose first character stands at `start`
    /// (see `spec_from_str`). A braced subscript must be cut between
    /// characters (see `braced_cut_lands`); elsewhere cutting the text
    /// would panic.
    pub fn from_str(s: &str, start: usize) -> (r: Result<Self, ParsingError>)
        requires
            start + 4 * s@.len() + 4 <= usize::MAX,
            s@.len() >= 3 && s@[1] == '_' && s@[2] == '{' ==> braced_cut_lands(s@, 2),
        ensures
            match r {
                Ok(v) => spec_from_str(s@, start as int) == Ok::<CharVarV, ErrV>(v@),
                Err(e) => spec_from_str(s@, start as int) == Err::<CharVarV, ErrV>(e@),
            },
    {
        let cs = chars_of(s);
        let n = cs.len();
        proof {
            crate::types::node::lemma_byte_len_one(s@);
            crate::types::node::lemma_encode_len(s@);
        }
        let bytes = s.len();
        if n == 0 {
            return Err(ParsingError::new(s, Some("Expected identifier."), Span::new(start, start + 1), None));
        }
        if bytes == 1 {
            return Ok(VariableNode::new(cs[0], None, start, false));
        }
        if n == 1 {
            return Err(
                ParsingError::new(
                    s,
                    Some("Expected Variable Subscript Delimiter, found end of expression."),
                    Span::new(start, bytes),
                    None,
                ),
            );
        }
        let delim = cs[1];
        if delim != '_' {
            let mut msg = crate::text::string_of("Expected Variable Subscript Delimiter, found ");
            push_char(&mut msg, delim);
            append_str(&mut msg, ".");
            assert(msg@ =~= "Expected Variable Subscript Delimiter, found "@ + seq![delim] + "."@);
            return Err(ParsingError::new(s, Some(msg.as_str()), Span::new(start, bytes), None));
        }
        if n == 2 {
            return Err(
                ParsingError::new(
                    "Expected '{' or identifier after '_' found EOL.",
                    None,
                    Span::new(start, bytes),
                    None,
                ),
            );
        }
        let next = cs[2];
        if next == '{' {
            assert(cs@.subrange(0, n as int) =~= s@);
            match braced_cut_window(&cs, 0, n, 2) {
                None => {
                    return Err(
                        ParsingError::new(
                            s,
                            Some("Closing '}' not found in variable decleration"),
                            Span::new(start, bytes),
                            None,
                        ),
                    );
                },
                Some((x, y)) => {
                    let sub = string_from_chars(&cs, x, y);
                    return Ok(VariableNode::new(cs[0], Some(sub), start, true));
                },
            }
        }
        let mut sub = String::new();
        push_char(&mut sub, next);
        assert(sub@ =~= seq![next]);
        Ok(VariableNode::new(cs[0], Some(sub), start, false))
    }
}

} // verus!
