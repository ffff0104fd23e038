//! Abstractions read by `AbstractionNode::from_str`: the bound is read up
//! to the first `.`, and the body from the byte the `.` stands at.

use vstd::prelude::*;

use crate::text::{chars_of, find_in_window, lemma_find_seq};
use crate::types::node::{
    byte_len, char_at_byte, char_at_byte_window, lemma_char_at_byte, lemma_encode_len, node_span, AbsV, AbstractionNode,
    Node, NodeV,
};
use crate::types::parse::{
    abstraction_result, dot_pos, is_lambda_char, msg_bound_not_variable, msg_missing_body, msg_missing_lambda,
    msg_missing_separator, parse_node_window, spec_parse_node,
};
use crate::types::{mk_span, parse_err, ErrV, ParsingError, Span};

verus! {

/// What `AbstractionNode::from_str` gives for the text `s` at `start`. The
/// text must start with a lambda character; the bound, the characters
/// before the first `.`, must read as a variable; the body is read from
/// the byte whose offset is the `.`'s character position (the cut counts
/// bytes, the position characters), so on ASCII text it starts with the
/// `.` itself, at `start` plus that position.
pub open spec fn spec_abstraction_from_str(s: Seq<char>, start: int) -> Result<AbsV, ErrV> {
    if !(s.len() > 0 && is_lambda_char(s[0])) {
        Err(parse_err(s, msg_missing_lambda(), 0, byte_len(s)))
    } else if dot_pos(s.skip(1)) == 0 {
        Err(parse_err(s, msg_missing_separator(), start, byte_len(s)))
    } else {
        let k = dot_pos(s.skip(1));
        match spec_parse_node(s.skip(1).take(k), start + 1) {
            Err(x) => Err(x),
            Ok(NodeV::Variable(bv)) => if 1 + k >= s.len() {
                Err(parse_err(s, msg_missing_body(), start, byte_len(s)))
            } else {
                match char_at_byte(s, 1 + k) {
                    None => Err(parse_err(s, msg_missing_body(), start, byte_len(s))),
                    Some(p) => match spec_parse_node(s.skip(p), start + 1 + k) {
                        Err(x) => Err(x),
                        Ok(body) => Ok(
                            AbsV {
                                bound: Box::new(NodeV::Variable(bv)),
                                body: Box::new(body),
                                span: mk_span(start, node_span(body).end as int),
                            },
                        ),
                    },
                }
            },
            Ok(other) => Err(parse_err(s, msg_bound_not_variable(), 0, node_span(other).end as int)),
        }
    }
}

/// The byte at which the body is cut off starts a character, whenever
/// reading gets that far; elsewhere cutting the `str` would panic.
pub open spec fn body_cut_lands(s: Seq<char>, start: int) -> bool {
    let k = dot_pos(s.skip(1));
    s.len() > 0 && is_lambda_char(s[0]) && k > 0 && 1 + k < s.len() && spec_parse_node(
        s.skip(1).take(k),
        start + 1,
    ) is Ok && spec_parse_node(s.skip(1).take(k), start + 1)->Ok_0 is Variable ==> char_at_byte(s, 1 + k) is Some
}

impl AbstractionNode {
    /// Reads an abstraction from `s`, whose first character stands at
    /// `start` (see `spec_abstraction_from_str`).
    pub fn from_str(s: &str, start: usize) -> (r: Result<AbstractionNode, ParsingError>)
        requires
            start + 4 * s@.len() + 4 <= usize::MAX,
            body_cut_lands(s@, start as int),
        ensures
            abstraction_result(r) == spec_abstraction_from_str(s@, start as int),
    {
        let cs = chars_of(s);
        let n = cs.len();
        assert(cs@.subrange(0, n as int) =~= s@);
        if !(n > 0 && (cs[0] == 'L' || cs[0] == 'λ')) {
            return Err(
                ParsingError::new(s, Some("Missing a valid abstraction identifier!"), Span::new(0, s.len()), None),
            );
        }
        let dot = vec!['.'];
        assert(dot@ == seq!['.']);
        assert(cs@.subrange(1, n as int) =~= s@.skip(1));
        proof {
            lemma_find_seq(s@.skip(1), seq!['.']);
        }
        let k = match find_in_window(&cs, 1, n, &dot) {
            Some(k) => k,
            None => n - 1,
        };
        if k == 0 {
            return Err(
                ParsingError::new(
                    s,
                    Some("Expected abstraction body seperator '.', found EOL"),
                    Span::new(start, s.len()),
                    None,
                ),
            );
        }
        assert(cs@.subrange(1, 1 + k as int) =~= s@.skip(1).take(k as int));
        let bound = match parse_node_window(&cs, 1, 1 + k, start + 1) {
            Ok(x) => x,
            Err(e) => {
                return Err(e);
            },
        };
        match bound {
            Node::Variable(bv) => {
                if 1 + k >= n {
                    return Err(
                        ParsingError::new(
                            s,
                            Some("Expected abstraction body, found EOL"),
                            Span::new(start, s.len()),
                            None,
                        ),
                    );
                }
                proof {
                    lemma_char_at_byte(s@, 1 + k);
                }
                let p = match char_at_byte_window(&cs, 0, n, 1 + k) {
                    Some(p) => p,
                    None => {
                        return Err(
                            ParsingError::new(
                                s,
                                Some("Expected abstraction body, found EOL"),
                                Span::new(start, s.len()),
                                None,
                            ),
                        );
                    },
                };
                proof {
                    lemma_encode_len(s@.take(p as int));
                }
                assert(cs@.subrange(p as int, n as int) =~= s@.skip(p as int));
                let body = match parse_node_window(&cs, p, n, start + 1 + k) {
                    Ok(x) => x,
                    Err(e) => {
                        return Err(e);
                    },
                };
                let end = body.span().end;
                Ok(AbstractionNode { bound: Box::new(Node::Variable(bv)), body: Box::new(body), span: Span { start, end } })
            },
            other => {
                let end = other.span().end;
                Err(ParsingError::new(s, Some("Bound of a abstraction must be a variable"), Span::new(0, end), None))
            },
        }
    }
}

} // verus!
