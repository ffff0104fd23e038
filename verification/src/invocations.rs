//! Invocations: `name!(args)` calls written in a program, and `include!`
//! directives.

pub mod inclusion;

use vstd::prelude::*;

use crate::text::{
    chars_of, find_in_window, find_seq, is_ascii_ws, lemma_find_seq, lemma_trim, split_on, split_window,
    str_eq, str_to_uppercase, string_from_chars, string_of, strings_view, trim, trim_window, uppercase,
};
use crate::types::node::{byte_len, char_at_byte, char_at_byte_window, lemma_char_at_byte, lemma_encode_len, window_byte_len};
use crate::types::parse::cut_error;
use crate::types::{mk_span, missing_delim_msg, parse_err, ErrV, ParsingError, Span};
use crate::utils::{closing_delim, closing_delim_window, lemma_closing_delim_bounds};

verus! {

/// The invocations the interpreter provides itself.
#[derive(Debug, Clone, Copy, PartialEq, Eq, Structural)]
pub enum BuiltinInvocations {
    Print,
    Json,
}

/// The name of a builtin, as `Debug` writes it.
pub open spec fn builtin_name(b: BuiltinInvocations) -> Seq<char> {
    match b {
        BuiltinInvocations::Print => "Print"@,
        BuiltinInvocations::Json => "Json"@,
    }
}

/// The builtin that `value` names, its case ignored (both sides are
/// upper-cased), the first in declaration order winning.
pub open spec fn builtin_of(value: Seq<char>) -> Option<BuiltinInvocations> {
    if uppercase(builtin_name(BuiltinInvocations::Print)) == uppercase(value) {
        Some(BuiltinInvocations::Print)
    } else if uppercase(builtin_name(BuiltinInvocations::Json)) == uppercase(value) {
        Some(BuiltinInvocations::Json)
    } else {
        None
    }
}

impl BuiltinInvocations {
    /// The name of this builtin.
    pub fn name(&self) -> (r: &'static str)
        ensures
            r@ == builtin_name(*self),
    {
        match self {
            BuiltinInvocations::Print => "Print",
            BuiltinInvocations::Json => "Json",
        }
    }

    /// The builtin named `value`, its case ignored.
    pub fn try_from(value: &str) -> (r: Result<Self, ()>)
        ensures
            match builtin_of(value@) {
                Some(b) => r == Ok::<Self, ()>(b),
                None => r is Err,
            },
    {
        let upper = str_to_uppercase(value);
        let print = str_to_uppercase(BuiltinInvocations::Print.name());
        if str_eq(print.as_str(), upper.as_str()) {
            return Ok(BuiltinInvocations::Print);
        }
        let json = str_to_uppercase(BuiltinInvocations::Json.name());
        if str_eq(json.as_str(), upper.as_str()) {
            return Ok(BuiltinInvocations::Json);
        }
        Err(())
    }
}

/// What an invocation calls: a builtin, or a name of the program's own.
#[derive(Debug, Clone)]
pub enum InvocationKind {
    Builtin(BuiltinInvocations),
    Custom(String),
}

/// The content of an `InvocationKind`.
pub enum InvocationKindV {
    Builtin(BuiltinInvocations),
    Custom(Seq<char>),
}

impl View for InvocationKind {
    type V = InvocationKindV;

    open spec fn view(&self) -> InvocationKindV {
        match self {
            InvocationKind::Builtin(b) => InvocationKindV::Builtin(*b),
            InvocationKind::Custom(s) => InvocationKindV::Custom(s@),
        }
    }
}

/// What the name `value` calls.
pub open spec fn kind_of(value: Seq<char>) -> InvocationKindV {
    match builtin_of(value) {
        Some(b) => InvocationKindV::Builtin(b),
        None => InvocationKindV::Custom(value),
    }
}

impl InvocationKind {
    /// The builtin that `value` names, or else a call of the name itself.
    pub fn from(value: &str) -> (r: Self)
        ensures
            r@ == kind_of(value@),
    {
        match BuiltinInvocations::try_from(value) {
            Ok(b) => InvocationKind::Builtin(b),
            Err(_) => InvocationKind::Custom(string_of(value)),
        }
    }
}

/// A call `name!(a, b)` found in a program.
#[derive(Debug, Clone)]
pub struct Invocation {
    pub(crate) kind: InvocationKind,
    pub(crate) ident: String,
    pub(crate) args: Vec<String>,
    pub(crate) span: Span,
}

/// The content of an `Invocation`.
pub struct InvocationV {
    pub kind: InvocationKindV,
    pub ident: Seq<char>,
    pub args: Seq<Seq<char>>,
    pub span: Span,
}

impl View for Invocation {
    type V = InvocationV;

    open(crate) spec fn view(&self) -> InvocationV {
        InvocationV { kind: self.kind@, ident: self.ident@, args: strings_view(self.args@), span: self.span }
    }
}

/// Characters that end the text before an invocation's name: ASCII
/// whitespace and `)`.
pub open spec fn is_name_stop(c: char) -> bool {
    is_ascii_ws(c) || c == ')'
}

/// The position of the last stop character of `s`, or 0 when it has none.
pub open spec fn last_stop(s: Seq<char>) -> int
    decreases s.len(),
{
    if s.len() == 0 {
        0
    } else if is_name_stop(s.last()) {
        s.len() - 1
    } else {
        last_stop(s.drop_last())
    }
}

pub open spec fn msg_unexpected_end() -> Seq<char> {
    "Unexpected end of invocation. Expected '('."@
}

/// The error for `expr` when its `(` is never closed.
pub open spec fn unclosed_err(expr: Seq<char>) -> ErrV {
    ErrV {
        src: expr,
        msg: Some(missing_delim_msg('(')),
        span: Span { start: 0, end: byte_len(expr) as usize },
        created_at: None,
    }
}

/// What reading the invocations of `expr` gives: each `!` that is followed
/// (after whitespace) by a parenthesised argument list makes an invocation
/// whose name runs from the last stop character before the `!` (or the
/// start) up to it; its arguments are the text between the parentheses
/// split at each `,`. Reading goes on after the argument list; the text
/// after the last invocation is returned with them. The argument list's
/// end is a character position in the trimmed text after the `!`; the
/// arguments and the rest of the text are cut at byte offsets made from
/// it (see `char_at_byte`), and where a cut falls inside a character the
/// result is `cut_error` (cutting the `str` there panics).
pub open spec fn spec_parse_invocations(expr: Seq<char>, start: int) -> Result<
    (Seq<InvocationV>, Seq<char>),
    ErrV,
>
    decreases expr.len(),
{
    match find_seq(expr, seq!['!']) {
        None => Ok((Seq::empty(), expr)),
        Some(d) => {
            let rest = trim(expr.skip(d + 1));
            if rest.len() == 0 || rest[0] != '(' {
                Err(parse_err(expr, msg_unexpected_end(), 0, byte_len(expr)))
            } else {
                match closing_delim(rest, seq!['('], ')') {
                    Err(_) => Err(unclosed_err(expr)),
                    Ok((_, e)) => {
                        let next = byte_len(expr.take(d)) + e + 2;
                        proof {
                            lemma_char_at_byte(expr, next);
                        }
                        match (char_at_byte(rest, e), char_at_byte(expr, next)) {
                            (Some(y), Some(z)) => if 1 <= y && 0 < z {
                                let ident = expr.subrange(last_stop(expr.take(d)), d);
                                let inv = InvocationV {
                                    kind: kind_of(ident),
                                    ident,
                                    args: split_on(rest.subrange(1, y), ','),
                                    span: mk_span(start, e),
                                };
                                match spec_parse_invocations(expr.skip(z), start) {
                                    Ok((v, r)) => Ok((seq![inv] + v, r)),
                                    Err(x) => Err(x),
                                }
                            } else {
                                Err(cut_error(expr))
                            },
                            _ => Err(cut_error(expr)),
                        }
                    },
                }
            }
        },
    }
}

/// Every cut that reading the invocations of `expr` makes falls between
/// characters, so that cutting the `str` does not panic.
pub open spec fn invocation_cuts_land(expr: Seq<char>) -> bool
    decreases expr.len(),
{
    match find_seq(expr, seq!['!']) {
        None => true,
        Some(d) => {
            let rest = trim(expr.skip(d + 1));
            if rest.len() == 0 || rest[0] != '(' {
                true
            } else {
                match closing_delim(rest, seq!['('], ')') {
                    Err(_) => true,
                    Ok((_, e)) => {
                        let next = byte_len(expr.take(d)) + e + 2;
                        proof {
                            lemma_char_at_byte(expr, next);
                        }
                        match (char_at_byte(rest, e), char_at_byte(expr, next)) {
                            (Some(y), Some(z)) => if 0 < z {
                                invocation_cuts_land(expr.skip(z))
                            } else {
                                false
                            },
                            _ => false,
                        }
                    },
                }
            }
        },
    }
}

/// The position where the name before position `d` of `cs[lo..]` starts.
fn name_start(cs: &Vec<char>, lo: usize, d: usize) -> (r: usize)
    requires
        lo + d <= cs@.len(),
    ensures
        r == last_stop(cs@.subrange(lo as int, (lo + d) as int)),
        r <= d,
{
    let ghost s = cs@.subrange(lo as int, (lo + d) as int);
    let mut j = d;
    assert(s.take(d as int) =~= s);
    while j > 0
        invariant
            0 <= j <= d,
            lo + d <= cs.len(),
            s == cs@.subrange(lo as int, (lo + d) as int),
            last_stop(s) == last_stop(s.take(j as int)),
        decreases j,
    {
        let c = cs[lo + j - 1];
        assert(s.take(j as int).last() == c);
        if is_ascii_whitespace(c) || c == ')' {
            return j - 1;
        }
        assert(s.take(j as int).drop_last() =~= s.take(j - 1));
        j = j - 1;
    }
    assert(s.take(0) =~= Seq::<char>::empty());
    0
}

fn is_ascii_whitespace(c: char) -> (r: bool)
    ensures
        r == is_ascii_ws(c),
{
    crate::text::char_is_ascii_whitespace(c)
}

impl Invocation {
    pub fn kind(&self) -> (r: &InvocationKind)
        ensures
            r@ == self@.kind,
    {
        &self.kind
    }

    pub fn ident(&self) -> (r: &String)
        ensures
            r@ == self@.ident,
    {
        &self.ident
    }

    pub fn args(&self) -> (r: &Vec<String>)
        ensures
            strings_view(r@) == self@.args,
    {
        &self.args
    }

    pub fn span(&self) -> (r: Span)
        ensures
            r == self@.span,
    {
        self.span
    }

    /// Reads the invocations of `expr` (see `spec_parse_invocations`);
    /// spans start at `start`. Returns them with the text after the last
    /// one. Every cut must fall between characters (see
    /// `invocation_cuts_land`); elsewhere cutting the text would panic.
    pub fn parse(expr: &str, start: usize) -> (r: Result<(Vec<Invocation>, String), ParsingError>)
        requires
            4 * expr@.len() + 8 <= usize::MAX,
            invocation_cuts_land(expr@),
        ensures
            match r {
                Ok((v, rest)) => spec_parse_invocations(expr@, start as int) == Ok::<
                    (Seq<InvocationV>, Seq<char>),
                    ErrV,
                >((v@.map_values(|i: Invocation| i@), rest@)),
                Err(e) => spec_parse_invocations(expr@, start as int) == Err::<
                    (Seq<InvocationV>, Seq<char>),
                    ErrV,
                >(e@),
            },
    {
        let cs = chars_of(expr);
        let n = cs.len();
        let bang = vec!['!'];
        let paren = ['('];
        let ghost whole = spec_parse_invocations(expr@, start as int);
        let mut invocations: Vec<Invocation> = Vec::new();
        let mut lo: usize = 0;
        assert(cs@.skip(0) =~= expr@);
        while lo <= n
            invariant
                lo <= n,
                n == cs@.len(),
                cs@ == expr@,
                4 * n + 8 <= usize::MAX,
                invocation_cuts_land(cs@.skip(lo as int)),
                bang@ == seq!['!'],
                paren@ == seq!['('],
                whole == spec_parse_invocations(expr@, start as int),
                whole == (match spec_parse_invocations(cs@.skip(lo as int), start as int) {
                    Ok((v, r)) => Ok((invocations@.map_values(|i: Invocation| i@) + v, r)),
                    Err(x) => Err(x),
                }),
            decreases n - lo,
        {
            let ghost e0 = cs@.skip(lo as int);
            assert(cs@.subrange(lo as int, n as int) =~= e0);
            proof {
                lemma_find_seq(e0, seq!['!']);
            }
            let d = match find_in_window(&cs, lo, n, &bang) {
                None => {
                    let rest = string_from_chars(&cs, lo, n);
                    assert(invocations@.map_values(|i: Invocation| i@) + Seq::<InvocationV>::empty()
                        =~= invocations@.map_values(|i: Invocation| i@));
                    return Ok((invocations, rest));
                },
                Some(d) => d,
            };
            let (ta, tb) = trim_window(&cs, lo + d + 1, n);
            let ghost rest = trim(e0.skip(d + 1));
            assert(cs@.subrange(lo + d + 1, n as int) =~= e0.skip(d + 1));
            assert(cs@.subrange(ta as int, tb as int) == rest);
            if ta == tb || cs[ta] != '(' {
                let src = string_from_chars(&cs, lo, n);
                let end = src.as_str().len();
                return Err(
                    ParsingError::new(
                        src.as_str(),
                        Some("Unexpected end of invocation. Expected '('."),
                        Span::new(0, end),
                        None,
                    ),
                );
            }
            assert(rest[0] == cs@[ta as int]);
            let e = match closing_delim_window(&cs, ta, tb, paren.as_slice(), ')') {
                Err(_) => {
                    let src = string_from_chars(&cs, lo, n);
                    return Err(ParsingError::missing_closing_delimiter(src.as_str(), '(', 0, None));
                },
                Ok((_, e)) => e,
            };
            proof {
                lemma_closing_delim_bounds(rest, seq!['('], ')');
                lemma_trim(e0.skip(d + 1));
                lemma_char_at_byte(rest, e as int);
                lemma_encode_len(e0.take(d as int));
            }
            let db = window_byte_len(&cs, lo, lo + d);
            assert(cs@.subrange(lo as int, (lo + d) as int) =~= e0.take(d as int));
            proof {
                lemma_char_at_byte(e0, db + e + 2);
            }
            let oy = char_at_byte_window(&cs, ta, tb, e);
            let oz = char_at_byte_window(&cs, lo, n, db + e + 2);
            let (y, z) = match (oy, oz) {
                (Some(y), Some(z)) => (y, z),
                _ => {
                    proof {
                        assert(false);
                    }
                    return Err(ParsingError::new(expr, None, Span::new(0, 0), None));
                },
            };
            let is = name_start(&cs, lo, d);
            let ident = string_from_chars(&cs, lo + is, lo + d);
            assert(cs@.subrange((lo + is) as int, (lo + d) as int) =~= e0.subrange(is as int, d as int));
            let args = split_window(&cs, ta + 1, ta + y, ',');
            assert(cs@.subrange(ta + 1, (ta + y) as int) =~= rest.subrange(1, y as int));
            let kind = InvocationKind::from(ident.as_str());
            let inv = Invocation { kind, ident, args, span: Span::new(start, e) };
            let ghost iv = inv@;
            let ghost before = invocations@.map_values(|i: Invocation| i@);
            invocations.push(inv);
            assert(invocations@.map_values(|i: Invocation| i@) =~= before.push(iv));
            assert(cs@.skip(lo + z) =~= e0.skip(z as int));
            proof {
                let next = spec_parse_invocations(e0.skip(z as int), start as int);
                match next {
                    Ok((v, r)) => {
                        assert(before + (seq![iv] + v) =~= before.push(iv) + v);
                    },
                    Err(x) => {},
                }
            }
            lo = lo + z;
        }
        proof {
            assert(false);
        }
        Err(ParsingError::new(expr, None, Span::new(0, 0), None))
    }
}

} // verus!
