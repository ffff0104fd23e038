//! Reading lambda expressions from text.
//!
//! Spans that cover a whole text end at its length in UTF-8 bytes. The
//! positions of parts (a matching parenthesis or brace, the `.` of an
//! abstraction, a span's length) count characters, and the text is cut at
//! those positions taken as byte offsets (see `char_at_byte`); a variable's
//! span covers its first character plus its subscript's bytes, as
//! `VariableNode::new` does. On ASCII text all these counts agree.

use vstd::prelude::*;

use crate::text::{
    char_is_alphanumeric, char_is_uppercase, chars_eq, chars_of, find_in_window, find_seq,
    is_alphanumeric, is_uppercase, lemma_find_seq, push_char, string_from_chars, string_of,
    window_contains,
};
use crate::types::node::{
    byte_len, char_at_byte, char_at_byte_window, lemma_char_at_byte, lemma_encode_len, new_var_view, node_span, window_byte_len, AbsV, AbstractionNode, AppV, ApplicationNode, Node, NodeV, VarV,
    VariableNode,
};
use crate::types::{missing_delim_msg, mk_span, parse_err, ErrV, ParsingError, Span};
use crate::utils::{closing_delim, closing_delim_window, lemma_closing_delim_bounds};

verus! {

/// The characters that open an abstraction (`L` and `λ`).
pub open spec fn is_lambda_char(c: char) -> bool {
    c == 'L' || c == 'λ'
}

pub open spec fn msg_lambda_in_variable() -> Seq<char> {
    "Variable contains a lambda character. Try using a substring such as L_1 to differentiate the name."@
}

pub open spec fn msg_expected_identifier() -> Seq<char> {
    "Expected identifier, found EOL."@
}

pub open spec fn msg_invalid_variable() -> Seq<char> {
    "Invalid Variable Identifier"@
}

pub open spec fn msg_missing_brace() -> Seq<char> {
    "Closing '}' not found in variable decleration"@
}

pub open spec fn msg_missing_subscript() -> Seq<char> {
    "Expected '{' or identifier after '_' found EOL."@
}

pub open spec fn msg_missing_lambda() -> Seq<char> {
    "Missing a valid abstraction identifier!"@
}

pub open spec fn msg_missing_separator() -> Seq<char> {
    "Expected abstraction body seperator '.', found EOL"@
}

pub open spec fn msg_bound_not_variable() -> Seq<char> {
    "Bound of a abstraction must be a variable"@
}

pub open spec fn msg_missing_body() -> Seq<char> {
    "Expected abstraction body, found EOL"@
}

pub open spec fn msg_invalid_input() -> Seq<char> {
    "Invalid Input"@
}

pub open spec fn msg_single_node() -> Seq<char> {
    "Attempt to parse application with only single node"@
}

/// The end of the run of uppercase characters (other than `_`) in `s`
/// starting at `i`.
pub open spec fn upper_run(s: Seq<char>, i: int) -> int
    decreases s.len() - i,
{
    if 0 <= i < s.len() && is_uppercase(s[i]) && s[i] != '_' {
        upper_run(s, i + 1)
    } else {
        i
    }
}

/// Length of a variable's identifier at the start of `s`: one character,
/// or an uppercase character followed by all uppercase characters after it.
pub open spec fn base_len(s: Seq<char>) -> int {
    if s.len() > 0 && is_uppercase(s[0]) {
        upper_run(s, 1)
    } else {
        1
    }
}

/// Where the subscript in braces that the character position `q` opens
/// is cut out of `s`. Reading goes on from byte `q` of the text (the
/// position counts characters, the cut counts bytes): the braces are
/// matched there by character, and the subscript is cut between the bytes
/// those character positions name, counted from `q`. `None` when no
/// closing brace follows.
#[verifier::opaque]
pub open spec fn braced_cut(s: Seq<char>, q: int) -> Option<(int, int)> {
    match char_at_byte(s, q) {
        None => None,
        Some(p) => match closing_delim(s.skip(p), seq!['{'], '}') {
            Err(_) => None,
            Ok((a, e)) => match (char_at_byte(s, q + a + 1), char_at_byte(s, q + e)) {
                (Some(x), Some(y)) => if x <= y {
                    Some((x, y))
                } else {
                    None
                },
                _ => None,
            },
        },
    }
}

/// Cutting the braced subscript opened at character position `q` finds
/// whole characters: every byte offset used falls between characters, so
/// cutting the `str` does not panic.
pub open spec fn braced_cut_lands(s: Seq<char>, q: int) -> bool {
    match char_at_byte(s, q) {
        None => false,
        Some(p) => match closing_delim(s.skip(p), seq!['{'], '}') {
            Err(_) => true,
            Ok((a, e)) => char_at_byte(s, q + a + 1) matches Some(x) && char_at_byte(s, q + e) matches Some(y)
                && x <= y,
        },
    }
}

/// A cut that `braced_cut` finds lies within the text.
pub proof fn lemma_braced_cut(s: Seq<char>, q: int)
    ensures
        braced_cut(s, q) matches Some((x, y)) ==> 0 <= x <= y <= s.len() && (q >= 0 ==> 1 <= x),
{
    reveal(braced_cut);
    lemma_char_at_byte(s, q);
    if let Some(p) = char_at_byte(s, q) {
        lemma_closing_delim_bounds(s.skip(p), seq!['{'], '}');
        if let Ok((a, e)) = closing_delim(s.skip(p), seq!['{'], '}') {
            lemma_char_at_byte(s, q + a + 1);
            lemma_char_at_byte(s, q + e);
            assert(s.take(0) =~= Seq::<char>::empty());
            assert(byte_len(Seq::<char>::empty()) == 0);
        }
    }
}

/// Computes `braced_cut(cs[lo..hi], q)`.
pub fn braced_cut_window(cs: &Vec<char>, lo: usize, hi: usize, q: usize) -> (r: Option<(usize, usize)>)
    requires
        lo <= hi <= cs@.len(),
        hi - lo <= isize::MAX,
        q <= hi - lo,
    ensures
        match braced_cut(cs@.subrange(lo as int, hi as int), q as int) {
            Some((x, y)) => r == Some((x as usize, y as usize)) && 1 <= x <= y <= hi - lo,
            None => r is None,
        },
{
    let ghost s = cs@.subrange(lo as int, hi as int);
    proof {
        reveal(braced_cut);
        lemma_braced_cut(s, q as int);
        lemma_char_at_byte(s, q as int);
    }
    let p = match char_at_byte_window(cs, lo, hi, q) {
        Some(p) => p,
        None => {
            return None;
        },
    };
    let opening = ['{'];
    assert(opening@ == seq!['{']);
    assert(cs@.subrange(lo + p, hi as int) =~= s.skip(p as int));
    proof {
        lemma_closing_delim_bounds(s.skip(p as int), seq!['{'], '}');
    }
    assert(char_at_byte(s, q as int) == Some(p as int));
    match closing_delim_window(cs, lo + p, hi, opening.as_slice(), '}') {
        Err(_) => {
            assert(closing_delim(s.skip(p as int), seq!['{'], '}') is Err);
            assert(braced_cut(s, q as int) is None);
            None
        },
        Ok((a, e)) => {
            assert(closing_delim(s.skip(p as int), seq!['{'], '}') == Ok::<(int, int), int>((a as int, e as int)));
            proof {
                lemma_char_at_byte(s, q + a + 1);
                lemma_char_at_byte(s, (q + e) as int);
            }
            let ox = char_at_byte_window(cs, lo, hi, q + a + 1);
            let oy = char_at_byte_window(cs, lo, hi, q + e);
            match ox {
                Some(x) => match oy {
                    Some(y) => {
                        assert(char_at_byte(s, q + a + 1) == Some(x as int));
                        assert(char_at_byte(s, (q + e) as int) == Some(y as int));
                        if x <= y {
                            assert(braced_cut(s, q as int) == Some((x as int, y as int)));
                            Some((x, y))
                        } else {
                            None
                        }
                    },
                    None => None,
                },
                None => None,
            }
        },
    }
}

/// What `VariableNode::parse_str` gives for the text `s` at `start`. A
/// braced subscript is cut as `braced_cut` says; where no cut is found the
/// closing brace counts as missing, which includes the cuts that fall
/// inside a character, where cutting the `str` would panic.
pub open spec fn spec_parse_variable(s: Seq<char>, start: int) -> Result<VarV, ErrV> {
    if s.len() > 0 && (s[0] == '_' || (is_lambda_char(s[0]) && (s.len() == 1 || !s.contains('_')))) {
        Err(parse_err(s, msg_lambda_in_variable(), 0, byte_len(s)))
    } else if s.len() == 0 {
        Err(parse_err(s, msg_expected_identifier(), start, start + 1))
    } else if byte_len(s) == 1 {
        if !is_alphanumeric(s[0]) {
            Err(parse_err(s, msg_invalid_variable(), 0, 1))
        } else {
            Ok(new_var_view(s, None, start, false))
        }
    } else {
        let b = base_len(s);
        if b >= s.len() || s[b] != '_' {
            Ok(new_var_view(s.take(b), None, start, false))
        } else if b + 1 >= s.len() {
            Err(
                ErrV {
                    src: msg_missing_subscript(),
                    msg: None,
                    span: mk_span(start, byte_len(s)),
                    created_at: None,
                },
            )
        } else {
            let next = s[b + 1];
            if !is_alphanumeric(next) && next != '{' && next != '}' {
                Err(parse_err(s, msg_invalid_variable(), 0, byte_len(s)))
            } else if next == '{' {
                match braced_cut(s, b + 1) {
                    Some((x, y)) => Ok(new_var_view(s.take(b), Some(s.subrange(x, y)), start, true)),
                    None => Err(parse_err(s, msg_missing_brace(), start, byte_len(s))),
                }
            } else {
                Ok(new_var_view(s.take(b), Some(seq![next]), start, false))
            }
        }
    }
}

/// Position of the first `.` in `s`, or its length when there is none.
pub open spec fn dot_pos(s: Seq<char>) -> int {
    match find_seq(s, seq!['.']) {
        Some(k) => k,
        None => s.len() as int,
    }
}

/// What `Node::parse_str` gives for the text `s` at `start`.
pub open spec fn spec_parse_node(s: Seq<char>, start: int) -> Result<NodeV, ErrV>
    decreases s.len(), 2int,
{
    parse_node_from(s, start, 0)
}

/// The error given where reading would cut the text inside a character:
/// cutting the `str` there panics.
pub open spec fn cut_error(s: Seq<char>) -> ErrV {
    parse_err(s, msg_invalid_input(), 0, byte_len(s))
}

/// `Node::parse_str` once `offset` pairs of parentheses that enclosed the
/// whole text have been removed, leaving `s`. A pair encloses the whole
/// text when its closing character's position is the text's length in
/// bytes less one. Positions of parts count characters; the text is cut
/// at those positions taken as byte offsets (see `char_at_byte`).
pub open spec fn parse_node_from(s: Seq<char>, start: int, offset: int) -> Result<NodeV, ErrV>
    decreases s.len(), 1int,
{
    if s.len() > 0 && s[0] == '(' {
        match closing_delim(s, seq!['('], ')') {
            Err(_) => Err(
                ErrV {
                    src: s,
                    msg: Some(missing_delim_msg('(')),
                    span: mk_span(0, byte_len(s)),
                    created_at: None,
                },
            ),
            Ok((a, e)) => {
                proof {
                    lemma_closing_delim_bounds(s, seq!['('], ')');
                    lemma_encode_len(s);
                }
                if a == 0 && e == byte_len(s) - 1 {
                    parse_node_from(s.subrange(1, s.len() - 1), start, offset + 1)
                } else {
                    proof {
                        lemma_char_at_byte(s, a + 1);
                        lemma_char_at_byte(s, e);
                        lemma_char_at_byte(s, e + 1);
                    }
                    match (char_at_byte(s, a + 1), char_at_byte(s, e), char_at_byte(s, e + 1)) {
                        (Some(x), Some(y), Some(z)) => if x <= y {
                            match spec_parse_node(s.subrange(x, y), start) {
                                Err(x) => Err(x),
                                Ok(left) => match spec_parse_node(s.skip(z), start + e + 1) {
                                    Err(x) => Err(x),
                                    Ok(right) => Ok(
                                        NodeV::Application(
                                            AppV {
                                                left: Box::new(left),
                                                right: Box::new(right),
                                                span: mk_span(start, node_span(right).end as int),
                                            },
                                        ),
                                    ),
                                },
                            }
                        } else {
                            Err(cut_error(s))
                        },
                        _ => Err(cut_error(s)),
                    }
                }
            },
        }
    } else if s.len() > 0 && is_lambda_char(s[0]) {
        match spec_parse_abstraction(s, start + offset) {
            Err(x) => Err(x),
            Ok(ab) => {
                let l = ab.span.end - ab.span.start;
                if 0 < l < byte_len(s) {
                    proof {
                        lemma_char_at_byte(s, l);
                    }
                    match char_at_byte(s, l) {
                        None => Err(cut_error(s)),
                        Some(z) => if s.skip(z) != seq![')'] {
                            match spec_parse_node(s.skip(z), ab.span.end as int) {
                                Err(x) => Err(x),
                                Ok(r) => Ok(
                                    NodeV::Application(
                                        AppV {
                                            left: Box::new(NodeV::Abstraction(ab)),
                                            right: Box::new(r),
                                            span: mk_span(start, node_span(r).end as int),
                                        },
                                    ),
                                ),
                            }
                        } else {
                            Ok(NodeV::Abstraction(ab))
                        },
                    }
                } else {
                    Ok(NodeV::Abstraction(ab))
                }
            },
        }
    } else {
        match spec_parse_variable(s, start) {
            Ok(v) => {
                let l = v.span.end - v.span.start;
                if 0 < l < byte_len(s) {
                    proof {
                        lemma_char_at_byte(s, l);
                    }
                    match char_at_byte(s, l) {
                        None => Err(cut_error(s)),
                        Some(z) => match spec_parse_node(s.skip(z), v.span.end as int) {
                            Err(x) => Err(x),
                            Ok(r) => Ok(
                                NodeV::Application(
                                    AppV {
                                        left: Box::new(NodeV::Variable(v)),
                                        right: Box::new(r),
                                        span: mk_span(start, node_span(r).end as int),
                                    },
                                ),
                            ),
                        },
                    }
                } else {
                    Ok(NodeV::Variable(v))
                }
            },
            Err(_) => Err(parse_err(s, msg_invalid_input(), 0, byte_len(s))),
        }
    }
}

/// What `AbstractionNode::parse_str` gives for the text `s` at `start`.
/// The body is cut from the byte just after the `.`'s character position.
pub open spec fn spec_parse_abstraction(s: Seq<char>, start: int) -> Result<AbsV, ErrV>
    decreases s.len(), 0int,
{
    if !(s.len() > 0 && is_lambda_char(s[0])) {
        Err(parse_err(s, msg_missing_lambda(), 0, byte_len(s)))
    } else {
        let rest = s.skip(1);
        let k = dot_pos(rest);
        proof {
            lemma_find_seq(rest, seq!['.']);
        }
        if k <= 0 || k > rest.len() {
            Err(parse_err(s, msg_missing_separator(), start, byte_len(s)))
        } else {
            match spec_parse_node(rest.take(k), start + 1) {
                Err(x) => Err(x),
                Ok(bound) => match bound {
                    NodeV::Variable(bv) => if 1 + k >= s.len() {
                        Err(parse_err(s, msg_missing_body(), start, byte_len(s)))
                    } else {
                        proof {
                            lemma_char_at_byte(s, k + 2);
                        }
                        match char_at_byte(s, k + 2) {
                            None => Err(cut_error(s)),
                            Some(z) => match spec_parse_node(s.skip(z), start + k + 2) {
                                Err(x) => Err(x),
                                Ok(body) => Ok(
                                    AbsV {
                                        bound: Box::new(NodeV::Variable(bv)),
                                        body: Box::new(body),
                                        span: mk_span(start, node_span(body).end as int),
                                    },
                                ),
                            },
                        }
                    },
                    _ => Err(parse_err(s, msg_bound_not_variable(), 0, node_span(bound).end as int)),
                },
            }
        }
    }
}


/// The content of a parse result.
pub open spec fn variable_result(r: Result<VariableNode, ParsingError>) -> Result<VarV, ErrV> {
    match r {
        Ok(v) => Ok(v@),
        Err(e) => Err(e@),
    }
}

pub open spec fn node_result(r: Result<Node, ParsingError>) -> Result<NodeV, ErrV> {
    match r {
        Ok(n) => Ok(n@),
        Err(e) => Err(e@),
    }
}

pub open spec fn abstraction_result(r: Result<AbstractionNode, ParsingError>) -> Result<AbsV, ErrV> {
    match r {
        Ok(a) => Ok(a@),
        Err(e) => Err(e@),
    }
}

/// The error with source `cs[lo..hi]`, message `msg` and span `span`.
fn window_error(cs: &Vec<char>, lo: usize, hi: usize, msg: &str, span: Span) -> (r: ParsingError)
    requires
        lo <= hi <= cs@.len(),
    ensures
        r@ == (ErrV { src: cs@.subrange(lo as int, hi as int), msg: Some(msg@), span, created_at: None }),
{
    ParsingError {
        src: string_from_chars(cs, lo, hi),
        msg: Some(string_of(msg)),
        error_span: span,
        created_at: None,
    }
}

/// The end of the uppercase run of `cs[lo..hi]` from `lo + i`, relative
/// to `lo`.
fn upper_run_window(cs: &Vec<char>, lo: usize, hi: usize, i: usize) -> (r: usize)
    requires
        lo <= hi <= cs@.len(),
        i <= hi - lo,
    ensures
        r == upper_run(cs@.subrange(lo as int, hi as int), i as int),
        i <= r <= hi - lo,
{
    let ghost s = cs@.subrange(lo as int, hi as int);
    let mut b = i;
    while b < hi - lo && char_is_uppercase(cs[lo + b]) && cs[lo + b] != '_'
        invariant
            lo <= hi <= cs@.len(),
            i <= b <= hi - lo,
            s == cs@.subrange(lo as int, hi as int),
            upper_run(s, i as int) == upper_run(s, b as int),
        decreases hi - lo - b,
    {
        assert(s[b as int] == cs@[lo + b]);
        b = b + 1;
    }
    if b < hi - lo {
        assert(s[b as int] == cs@[lo + b]);
    }
    b
}

/// `VariableNode::parse_str` on the window `cs[lo..hi]`.
pub fn parse_variable_window(cs: &Vec<char>, lo: usize, hi: usize, start: usize) -> (r: Result<
    VariableNode,
    ParsingError,
>)
    requires
        lo <= hi <= cs@.len(),
        start + 4 * (hi - lo) + 4 <= usize::MAX,
    ensures
        variable_result(r) == spec_parse_variable(cs@.subrange(lo as int, hi as int), start as int),
        r matches Ok(v) ==> v@.span.start == start && start < v@.span.end <= start + 4 * (hi - lo),
{
    let ghost s = cs@.subrange(lo as int, hi as int);
    let n = hi - lo;
    let bn = window_byte_len(cs, lo, hi);
    proof {
        crate::types::node::lemma_byte_len_one(s);
    }
    if n > 0 {
        let c0 = cs[lo];
        assert(s[0] == c0);
        if c0 == '_' || ((c0 == 'L' || c0 == 'λ') && (n == 1 || !window_contains(cs, lo, hi, '_'))) {
            return Err(
                window_error(
                    cs,
                    lo,
                    hi,
                    "Variable contains a lambda character. Try using a substring such as L_1 to differentiate the name.",
                    Span { start: 0, end: bn },
                ),
            );
        }
    }
    if n == 0 {
        return Err(window_error(cs, lo, hi, "Expected identifier, found EOL.", Span { start, end: start + 1 }));
    }
    if bn == 1 {
        if !char_is_alphanumeric(cs[lo]) {
            return Err(window_error(cs, lo, hi, "Invalid Variable Identifier", Span { start: 0, end: 1 }));
        }
        return Ok(VariableNode::new(string_from_chars(cs, lo, hi), None, start, false));
    }
    let b = if char_is_uppercase(cs[lo]) {
        upper_run_window(cs, lo, hi, 1)
    } else {
        1
    };
    assert(b == crate::types::parse::base_len(s));
    assert(cs@.subrange(lo as int, lo + b) == s.take(b as int));
    if b >= n || cs[lo + b] != '_' {
        return Ok(VariableNode::new(string_from_chars(cs, lo, lo + b), None, start, false));
    }
    assert(s[b as int] == '_');
    if b + 1 >= n {
        return Err(
            ParsingError {
                src: string_of("Expected '{' or identifier after '_' found EOL."),
                msg: None,
                error_span: Span { start, end: bn },
                created_at: None,
            },
        );
    }
    let next = cs[lo + b + 1];
    assert(s[b + 1] == next);
    if !char_is_alphanumeric(next) && next != '{' && next != '}' {
        return Err(window_error(cs, lo, hi, "Invalid Variable Identifier", Span { start: 0, end: bn }));
    }
    if next == '{' {
        match braced_cut_window(cs, lo, hi, b + 1) {
            Some((x, y)) => {
                let sub = string_from_chars(cs, lo + x, lo + y);
                assert(sub@ == s.subrange(x as int, y as int));
                proof {
                    crate::types::node::lemma_encode_len(sub@);
                }
                return Ok(VariableNode::new(string_from_chars(cs, lo, lo + b), Some(sub), start, true));
            },
            None => {
                return Err(
                    window_error(
                        cs,
                        lo,
                        hi,
                        "Closing '}' not found in variable decleration",
                        Span { start, end: bn },
                    ),
                );
            },
        }
    }
    let mut sub = String::new();
    push_char(&mut sub, next);
    assert(sub@ == seq![next]);
    proof {
        crate::types::node::lemma_encode_len(sub@);
    }
    Ok(VariableNode::new(string_from_chars(cs, lo, lo + b), Some(sub), start, false))
}


/// The missing-delimiter error for `cs[lo..hi]`, whose first character
/// `open_delim` is never closed.
fn delim_window_error(cs: &Vec<char>, lo: usize, hi: usize, open_delim: char) -> (r: ParsingError)
    requires
        lo <= hi <= cs@.len(),
        4 * (hi - lo) <= usize::MAX,
    ensures
        r@ == (ErrV {
            src: cs@.subrange(lo as int, hi as int),
            msg: Some(missing_delim_msg(open_delim)),
            span: mk_span(0, byte_len(cs@.subrange(lo as int, hi as int))),
            created_at: None,
        }),
{
    let bn = window_byte_len(cs, lo, hi);
    let mut msg = string_of("Missing closing delimiter for ");
    push_char(&mut msg, open_delim);
    crate::text::append_str(&mut msg, ".");
    assert(msg@ =~= missing_delim_msg(open_delim));
    ParsingError {
        src: string_from_chars(cs, lo, hi),
        msg: Some(msg),
        error_span: Span { start: 0, end: bn },
        created_at: None,
    }
}

/// `Node::parse_str` on the window `cs[lo..hi]`.
pub fn parse_node_window(cs: &Vec<char>, lo: usize, hi: usize, start: usize) -> (r: Result<
    Node,
    ParsingError,
>)
    requires
        lo <= hi <= cs@.len(),
        start + 4 * (hi - lo) + 4 <= usize::MAX,
    ensures
        node_result(r) == spec_parse_node(cs@.subrange(lo as int, hi as int), start as int),
        r matches Ok(n) ==> start <= node_span(n@).start < node_span(n@).end <= start + 4 * (hi
            - lo),
    decreases hi - lo, 3int,
{
    let ghost s0 = cs@.subrange(lo as int, hi as int);
    let mut a = lo;
    let mut b = hi;
    let mut offset: usize = 0;
    while b > a && cs[a] == '('
        invariant
            lo <= a <= b <= hi <= cs@.len(),
            a - lo == offset,
            hi - b == offset,
            start + 4 * (hi - lo) + 4 <= usize::MAX,
            s0 == cs@.subrange(lo as int, hi as int),
            spec_parse_node(s0, start as int) == parse_node_from(
                cs@.subrange(a as int, b as int),
                start as int,
                offset as int,
            ),
        decreases b - a,
    {
        let ghost s = cs@.subrange(a as int, b as int);
        assert(s[0] == cs@[a as int]);
        let opening = ['('];
        assert(opening@ == seq!['(']);
        match closing_delim_window(cs, a, b, opening.as_slice(), ')') {
            Err(_) => {
                return Err(delim_window_error(cs, a, b, '('));
            },
            Ok((ra, re)) => {
                proof {
                    lemma_closing_delim_bounds(s, seq!['('], ')');
                    lemma_encode_len(s);
                }
                let bn = window_byte_len(cs, a, b);
                if ra == 0 && re + 1 == bn {
                    assert(cs@.subrange(a + 1, b - 1) == s.subrange(1, s.len() - 1));
                    a = a + 1;
                    b = b - 1;
                    offset = offset + 1;
                } else {
                    return parse_parenthesized_application(cs, a, b, start, offset, ra, re);
                }
            },
        }
    }
    parse_node_unparenthesized(cs, a, b, start, offset)
}

/// `parse_node_from` where `cs[lo..hi]` starts with a parenthesized part,
/// `ra..re`, that does not enclose the whole text: an application of the
/// part to the rest.
fn parse_parenthesized_application(
    cs: &Vec<char>,
    lo: usize,
    hi: usize,
    start: usize,
    offset: usize,
    ra: usize,
    re: usize,
) -> (r: Result<Node, ParsingError>)
    requires
        lo < hi <= cs@.len(),
        cs@[lo as int] == '(',
        start + 4 * (hi - lo) + 4 <= usize::MAX,
        closing_delim(cs@.subrange(lo as int, hi as int), seq!['('], ')') == Ok::<(int, int), int>(
            (ra as int, re as int),
        ),
        ra < re < hi - lo,
        !(ra == 0 && re == byte_len(cs@.subrange(lo as int, hi as int)) - 1),
    ensures
        node_result(r) == parse_node_from(cs@.subrange(lo as int, hi as int), start as int, offset as int),
        r matches Ok(n) ==> start <= node_span(n@).start < node_span(n@).end <= start + 4 * (hi
            - lo),
    decreases hi - lo, 2int,
{
    let ghost s = cs@.subrange(lo as int, hi as int);
    assert(s[0] == cs@[lo as int]);
    proof {
        lemma_char_at_byte(s, ra + 1);
        lemma_char_at_byte(s, re as int);
        lemma_char_at_byte(s, re + 1);
    }
    let ox = char_at_byte_window(cs, lo, hi, ra + 1);
    let oy = char_at_byte_window(cs, lo, hi, re);
    let oz = char_at_byte_window(cs, lo, hi, re + 1);
    let (x, y, z) = match (ox, oy, oz) {
        (Some(x), Some(y), Some(z)) => {
            if x <= y {
                (x, y, z)
            } else {
                return Err(window_error(cs, lo, hi, "Invalid Input", Span { start: 0, end: window_byte_len(cs, lo, hi) }));
            }
        },
        _ => {
            return Err(window_error(cs, lo, hi, "Invalid Input", Span { start: 0, end: window_byte_len(cs, lo, hi) }));
        },
    };
    assert(cs@.subrange(lo + x, lo + y) == s.subrange(x as int, y as int));
    assert(cs@.subrange(lo + z, hi as int) == s.skip(z as int));
    let left = match parse_node_window(cs, lo + x, lo + y, start) {
        Ok(x) => x,
        Err(e) => {
            return Err(e);
        },
    };
    let right = match parse_node_window(cs, lo + z, hi, start + re + 1) {
        Ok(x) => x,
        Err(e) => {
            return Err(e);
        },
    };
    let end = right.span().end;
    Ok(Node::Application(ApplicationNode::new(left, right, Span { start, end })))
}

/// `parse_node_from` where `cs[lo..hi]` does not start with `(`.
#[verifier::rlimit(40)]
fn parse_node_unparenthesized(cs: &Vec<char>, lo: usize, hi: usize, start: usize, offset: usize) -> (r:
    Result<Node, ParsingError>)
    requires
        lo <= hi <= cs@.len(),
        !(hi > lo && cs@[lo as int] == '('),
        start + 4 * (hi - lo) + 4 * offset + 4 <= usize::MAX,
    ensures
        node_result(r) == parse_node_from(cs@.subrange(lo as int, hi as int), start as int, offset as int),
        r matches Ok(n) ==> start <= node_span(n@).start < node_span(n@).end <= start + offset + 4 * (hi
            - lo),
    decreases hi - lo, 2int,
{
    let ghost s = cs@.subrange(lo as int, hi as int);
    if hi > lo {
        assert(s[0] == cs@[lo as int]);
    }
    if hi > lo && (cs[lo] == 'L' || cs[lo] == 'λ') {
        let ab = match parse_abstraction_window(cs, lo, hi, start + offset) {
            Ok(x) => x,
            Err(e) => {
                return Err(e);
            },
        };
        let l = ab.span.end - ab.span.start;
        proof {
            reveal_strlit(")");
            assert(")"@ == seq![')']);
            lemma_encode_len(s);
        }
        let bn = window_byte_len(cs, lo, hi);
        if l < bn {
            proof {
                lemma_char_at_byte(s, l as int);
            }
            let z = match char_at_byte_window(cs, lo, hi, l) {
                Some(z) => z,
                None => {
                    return Err(window_error(cs, lo, hi, "Invalid Input", Span { start: 0, end: bn }));
                },
            };
            assert(cs@.subrange(lo + z, hi as int) == s.skip(z as int));
            if !chars_eq(cs, lo + z, hi, ")") {
                let r = match parse_node_window(cs, lo + z, hi, ab.span.end) {
                    Ok(x) => x,
                    Err(e) => {
                        return Err(e);
                    },
                };
                let end = r.span().end;
                return Ok(Node::Application(ApplicationNode::new(Node::Abstraction(ab), r, Span { start, end })));
            }
        }
        return Ok(Node::Abstraction(ab));
    }
    match parse_variable_window(cs, lo, hi, start) {
        Ok(var) => {
            let l = var.span.end - var.span.start;
            proof {
                lemma_encode_len(s);
            }
            let bn = window_byte_len(cs, lo, hi);
            if l < bn {
                proof {
                    lemma_char_at_byte(s, l as int);
                }
                let z = match char_at_byte_window(cs, lo, hi, l) {
                    Some(z) => z,
                    None => {
                        return Err(window_error(cs, lo, hi, "Invalid Input", Span { start: 0, end: bn }));
                    },
                };
                assert(cs@.subrange(lo + z, hi as int) == s.skip(z as int));
                let r = match parse_node_window(cs, lo + z, hi, var.span.end) {
                    Ok(x) => x,
                    Err(e) => {
                        return Err(e);
                    },
                };
                let end = r.span().end;
                return Ok(Node::Application(ApplicationNode::new(Node::Variable(var), r, Span { start, end })));
            }
            Ok(Node::Variable(var))
        },
        Err(_) => Err(window_error(cs, lo, hi, "Invalid Input", Span { start: 0, end: window_byte_len(cs, lo, hi) })),
    }
}

/// `AbstractionNode::parse_str` on the window `cs[lo..hi]`.
pub fn parse_abstraction_window(cs: &Vec<char>, lo: usize, hi: usize, start: usize) -> (r: Result<
    AbstractionNode,
    ParsingError,
>)
    requires
        lo <= hi <= cs@.len(),
        start + 4 * (hi - lo) + 4 <= usize::MAX,
    ensures
        abstraction_result(r) == spec_parse_abstraction(cs@.subrange(lo as int, hi as int), start as int),
        r matches Ok(x) ==> x@.span.start == start && start < x@.span.end <= start + 4 * (hi - lo),
    decreases hi - lo, 1int,
{
    let ghost s = cs@.subrange(lo as int, hi as int);
    let n = hi - lo;
    let bn = window_byte_len(cs, lo, hi);
    if n > 0 {
        assert(s[0] == cs@[lo as int]);
    }
    if !(n > 0 && (cs[lo] == 'L' || cs[lo] == 'λ')) {
        return Err(window_error(cs, lo, hi, "Missing a valid abstraction identifier!", Span { start: 0, end: bn }));
    }
    let dot = vec!['.'];
    assert(dot@ == seq!['.']);
    assert(cs@.subrange(lo + 1, hi as int) == s.skip(1));
    proof {
        lemma_find_seq(s.skip(1), seq!['.']);
    }
    let k = match find_in_window(cs, lo + 1, hi, &dot) {
        Some(k) => k,
        None => n - 1,
    };
    if k == 0 {
        return Err(
            window_error(
                cs,
                lo,
                hi,
                "Expected abstraction body seperator '.', found EOL",
                Span { start, end: bn },
            ),
        );
    }
    assert(cs@.subrange(lo + 1, lo + 1 + k) == s.skip(1).take(k as int));
    let bound = match parse_node_window(cs, lo + 1, lo + 1 + k, start + 1) {
        Ok(x) => x,
        Err(e) => {
            return Err(e);
        },
    };
    match bound {
        Node::Variable(bv) => {
            if 1 + k >= n {
                return Err(
                    window_error(cs, lo, hi, "Expected abstraction body, found EOL", Span { start, end: bn }),
                );
            }
            proof {
                lemma_char_at_byte(s, k + 2);
            }
            let z = match char_at_byte_window(cs, lo, hi, k + 2) {
                Some(z) => z,
                None => {
                    return Err(window_error(cs, lo, hi, "Invalid Input", Span { start: 0, end: bn }));
                },
            };
            assert(cs@.subrange(lo + z, hi as int) == s.skip(z as int));
            let body = match parse_node_window(cs, lo + z, hi, start + k + 2) {
                Ok(x) => x,
                Err(e) => {
                    return Err(e);
                },
            };
            let end = body.span().end;
            Ok(AbstractionNode { bound: Box::new(Node::Variable(bv)), body: Box::new(body), span: Span { start, end } })
        },
        other => {
            let end = other.span().end;
            Err(window_error(cs, lo, hi, "Bound of a abstraction must be a variable", Span { start: 0, end }))
        },
    }
}


/// The first part of an application as `ApplicationNode::parse_str` reads
/// it: an abstraction when the text starts with a lambda character, a
/// variable otherwise.
pub open spec fn spec_application_left(s: Seq<char>, start: int) -> Result<NodeV, ErrV> {
    if s.len() > 0 && is_lambda_char(s[0]) {
        match spec_parse_abstraction(s, start) {
            Ok(a) => Ok(NodeV::Abstraction(a)),
            Err(e) => Err(e),
        }
    } else {
        match spec_parse_variable(s, start) {
            Ok(v) => Ok(NodeV::Variable(v)),
            Err(e) => Err(e),
        }
    }
}

/// What `ApplicationNode::parse_str` gives for the text `s` at `start`.
pub open spec fn spec_parse_application(s: Seq<char>, start: int) -> Result<AppV, ErrV> {
    match spec_application_left(s, start) {
        Err(e) => Err(e),
        Ok(left) => {
            let end = node_span(left).end as int;
            if end == byte_len(s) - 1 {
                Err(parse_err(s, msg_single_node(), start, byte_len(s)))
            } else {
                match char_at_byte(s, end) {
                    None => Err(cut_error(s)),
                    Some(z) => match spec_parse_node(s.skip(z), end) {
                        Err(e) => Err(e),
                        Ok(right) => Ok(
                            AppV {
                                left: Box::new(left),
                                right: Box::new(right),
                                span: mk_span(start, node_span(right).end as int),
                            },
                        ),
                    },
                }
            }
        },
    }
}

pub open spec fn application_result(r: Result<ApplicationNode, ParsingError>) -> Result<AppV, ErrV> {
    match r {
        Ok(a) => Ok(a@),
        Err(e) => Err(e@),
    }
}

impl VariableNode {
    /// Reads a variable from `s`, whose first character stands at `start`.
    pub fn parse_str(s: &str, start: usize) -> (r: Result<Self, ParsingError>)
        requires
            start + 4 * s@.len() + 4 <= usize::MAX,
        ensures
            variable_result(r) == spec_parse_variable(s@, start as int),
            r matches Ok(v) ==> v@.span.start == start && start < v@.span.end <= start + 4 * s@.len(),
    {
        let cs = chars_of(s);
        assert(cs@.subrange(0, cs@.len() as int) == cs@);
        parse_variable_window(&cs, 0, cs.len(), start)
    }
}

impl Node {
    /// Reads a lambda expression from `s`, whose first character stands at
    /// `start`.
    pub fn parse_str(s: &str, start: usize) -> (r: Result<Self, ParsingError>)
        requires
            start + 4 * s@.len() + 4 <= usize::MAX,
        ensures
            node_result(r) == spec_parse_node(s@, start as int),
            r matches Ok(n) ==> start <= node_span(n@).start < node_span(n@).end <= start + 4 * s@.len(),
    {
        let cs = chars_of(s);
        assert(cs@.subrange(0, cs@.len() as int) == cs@);
        parse_node_window(&cs, 0, cs.len(), start)
    }
}

impl AbstractionNode {
    /// Reads an abstraction `λx.body` from `input`, whose first character
    /// stands at `start`.
    pub fn parse_str(input: &str, start: usize) -> (r: Result<Self, ParsingError>)
        requires
            start + 4 * input@.len() + 4 <= usize::MAX,
        ensures
            abstraction_result(r) == spec_parse_abstraction(input@, start as int),
            r matches Ok(x) ==> x@.span.start == start && start < x@.span.end <= start + 4 * input@.len(),
    {
        let cs = chars_of(input);
        assert(cs@.subrange(0, cs@.len() as int) == cs@);
        parse_abstraction_window(&cs, 0, cs.len(), start)
    }
}

impl ApplicationNode {
    /// Reads an application from `s`, whose first character stands at
    /// `start`: an abstraction or a variable, then the rest of the text.
    /// The rest is cut from the byte whose offset is where the first
    /// part's span ends, so that offset must fall between characters of
    /// `s` (elsewhere cutting the `str` panics).
    pub fn parse_str(s: &str, start: usize) -> (r: Result<ApplicationNode, ParsingError>)
        requires
            start + 4 * s@.len() + 4 <= usize::MAX,
            spec_application_left(s@, start as int) matches Ok(left) ==> (node_span(left).end == byte_len(s@) - 1
                || char_at_byte(s@, node_span(left).end as int) is Some),
        ensures
            application_result(r) == spec_parse_application(s@, start as int),
    {
        let cs = chars_of(s);
        assert(cs@.subrange(0, cs@.len() as int) == cs@);
        let n = cs.len();
        let left = if n > 0 && (cs[0] == 'L' || cs[0] == 'λ') {
            match parse_abstraction_window(&cs, 0, n, start) {
                Ok(a) => Node::Abstraction(a),
                Err(e) => {
                    return Err(e);
                },
            }
        } else {
            match parse_variable_window(&cs, 0, n, start) {
                Ok(v) => Node::Variable(v),
                Err(e) => {
                    return Err(e);
                },
            }
        };
        let end = left.span().end;
        proof {
            lemma_encode_len(s@);
        }
        let bn = window_byte_len(&cs, 0, n);
        if end + 1 == bn {
            return Err(
                window_error(
                    &cs,
                    0,
                    n,
                    "Attempt to parse application with only single node",
                    Span { start, end: bn },
                ),
            );
        }
        proof {
            lemma_char_at_byte(s@, end as int);
        }
        let z = match char_at_byte_window(&cs, 0, n, end) {
            Some(z) => z,
            None => {
                return Err(window_error(&cs, 0, n, "Invalid Input", Span { start: 0, end: bn }));
            },
        };
        assert(cs@.subrange(z as int, n as int) == s@.skip(z as int));
        let right = match parse_node_window(&cs, z, n, end) {
            Ok(x) => x,
            Err(e) => {
                return Err(e);
            },
        };
        let rend = right.span().end;
        Ok(ApplicationNode::new(left, right, Span { start, end: rend }))
    }
}

} // verus!
