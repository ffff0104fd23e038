//! What reading and writing expressions promise of each other.

use vstd::prelude::*;

use crate::text::{is_ascii_alnum, is_uppercase};
use crate::types::node::{byte_len, char_at_byte, lemma_byte_len_one, lemma_char_at_byte, lemma_char_at_byte_ascii, lemma_encode_len, node_span, node_text, var_text, AbsV, AppV, NodeV, VarV};
use crate::types::{mk_span, Span};
use crate::types::parse::{
    base_len, braced_cut, dot_pos, is_lambda_char, lemma_braced_cut, parse_node_from, spec_parse_abstraction, spec_parse_node, spec_parse_variable,
    upper_run,
};
use crate::types::ErrV;
use crate::utils::{closing_delim, delim_scan, depth, lemma_closing_delim_bounds};

verus! {

/// The run that `upper_run` finds holds uppercase characters other than
/// `_`, and stays within the text.
proof fn lemma_upper_run(s: Seq<char>, i: int)
    requires
        0 <= i,
    ensures
        i <= upper_run(s, i),
        i <= s.len() ==> upper_run(s, i) <= s.len(),
        forall|m: int| i <= m < upper_run(s, i) ==> is_uppercase(#[trigger] s[m]) && s[m] != '_',
    decreases s.len() - i,
{
    if 0 <= i < s.len() && is_uppercase(s[i]) && s[i] != '_' {
        lemma_upper_run(s, i + 1);
    }
}

/// A run of uppercase characters that ends at `k` is the one `upper_run`
/// finds.
proof fn lemma_upper_run_exact(s: Seq<char>, i: int, k: int)
    requires
        0 <= i <= k <= s.len(),
        forall|m: int| i <= m < k ==> is_uppercase(#[trigger] s[m]) && s[m] != '_',
        k < s.len() ==> !(is_uppercase(s[k]) && s[k] != '_'),
    ensures
        upper_run(s, i) == k,
    decreases k - i,
{
    if i < k {
        lemma_upper_run_exact(s, i + 1, k);
    }
}

/// Scanning `{`, then characters that are no braces, then `}`, finds the
/// closing brace at the end.
proof fn lemma_brace_scan(t: Seq<char>, i: int)
    requires
        t.len() >= 2,
        t[0] == '{',
        t[t.len() - 1] == '}',
        forall|m: int| 1 <= m < t.len() - 1 ==> #[trigger] t[m] != '{' && t[m] != '}',
        1 <= i <= t.len() - 1,
    ensures
        delim_scan(t, seq!['{'], '}', i, 1, 0) == Ok::<(int, int), int>((0, t.len() - 1)),
    decreases t.len() - i,
{
    assert(!seq!['{'].contains(t[i])) by {
        if seq!['{'].contains(t[i]) {
            let k = choose|k: int| 0 <= k < 1 && seq!['{'][k] == t[i];
            assert(seq!['{'][k] == '{');
        }
    }
    if i < t.len() - 1 {
        lemma_brace_scan(t, i + 1);
    }
}

/// What reading a variable gives: a non-empty identifier, all of it
/// uppercase when it is longer than one character.
proof fn lemma_parsed_ident(s: Seq<char>, start: int, v: VarV)
    requires
        spec_parse_variable(s, start) == Ok::<VarV, ErrV>(v),
    ensures
        v.ident.len() >= 1,
        v.ident.len() >= 2 ==> forall|m: int| 0 <= m < v.ident.len() ==> is_uppercase(#[trigger] v.ident[m]),
{
    lemma_byte_len_one(s);
    if byte_len(s) != 1 && s.len() >= 1 {
        lemma_upper_run(s, 1);
        let b = base_len(s);
        assert(v.ident == s.take(b));
        if b >= 2 {
            assert(is_uppercase(s[0]));
            assert forall|m: int| 0 <= m < v.ident.len() implies is_uppercase(#[trigger] v.ident[m]) by {
                assert(v.ident[m] == s[m]);
            }
        }
    }
}

/// Writing a variable that was read from text, and reading the written
/// text back at any position, gives the same identifier and subscript,
/// when both consist of ASCII letters and digits and a variable named from
/// `L` carries a subscript (a lone `L` starts an abstraction).
pub proof fn lemma_variable_round_trip(s: Seq<char>, start: int, v: VarV, j: int)
    requires
        spec_parse_variable(s, start) == Ok::<VarV, ErrV>(v),
        forall|m: int| 0 <= m < v.ident.len() ==> is_ascii_alnum(#[trigger] v.ident[m]),
        v.subscript matches Some(sub) ==> forall|m: int| 0 <= m < sub.len() ==> is_ascii_alnum(#[trigger] sub[m]),
        v.subscript is Some || v.ident[0] != 'L',
    ensures
        spec_parse_variable(var_text(v), j) matches Ok(w) && w.ident == v.ident && w.subscript == v.subscript,
{
    lemma_parsed_ident(s, start, v);
    let id = v.ident;
    let n = id.len() as int;
    let t = var_text(v);
    assert(t[0] == id[0]);
    assert(t[0] != '_' && t[0] != 'λ');
    match v.subscript {
        None => {
            assert(t == id);
            lemma_byte_len_one(t);
            if n == 1 {
                assert(is_ascii_alnum(t[0]));
            } else {
                assert(t[0] != 'L');
                lemma_upper_run_exact(t, 1, n);
                assert(is_uppercase(t[0]));
                assert(base_len(t) == n);
                assert(t.take(n) =~= t);
            }
        },
        Some(sub) => {
            assert(vstd::utf8::is_ascii_chars(sub)) by {
                assert forall|m: int| 0 <= m < sub.len() implies '\0' <= #[trigger] sub[m] <= '\u{7f}' by {
                    assert(is_ascii_alnum(sub[m]));
                }
            }
            vstd::utf8::is_ascii_chars_encode_utf8(sub);
            assert(t[n] == '_');
            assert(t.contains('_'));
            lemma_byte_len_one(t);
            assert forall|m: int| 1 <= m < n implies is_uppercase(#[trigger] t[m]) && t[m] != '_' by {
                assert(t[m] == id[m]);
                assert(is_ascii_alnum(id[m]));
            }
            assert(!is_uppercase(t[n]));
            lemma_upper_run_exact(t, 1, n);
            if !is_uppercase(t[0]) {
                assert(n == 1);
            }
            assert(base_len(t) == n);
            assert(t.take(n) =~= id);
            if sub.len() == 1 {
                assert(t =~= id + seq!['_'] + sub);
                assert(t.len() == n + 2);
                assert(t[n + 1] == sub[0]);
                assert(is_ascii_alnum(sub[0]));
                assert(seq![t[n + 1]] =~= sub);
            } else {
                assert(t =~= id + seq!['_', '{'] + sub + seq!['}']);
                let u = t.skip(n + 1);
                assert(u =~= seq!['{'] + sub + seq!['}']);
                assert forall|m: int| 1 <= m < u.len() - 1 implies #[trigger] u[m] != '{' && u[m] != '}' by {
                    assert(u[m] == sub[m - 1]);
                    assert(is_ascii_alnum(sub[m - 1]));
                }
                lemma_brace_scan(u, 1);
                assert(closing_delim(u, seq!['{'], '}') == Ok::<(int, int), int>((0, u.len() - 1))) by {
                    assert(seq!['{'].contains(u[0])) by {
                        assert(seq!['{'][0] == u[0]);
                    }
                }
                assert forall|m: int| 0 <= m < t.len() implies (#[trigger] t[m] as u32) < 128 by {
                    if m < n {
                        assert(t[m] == id[m]);
                        assert(is_ascii_alnum(id[m]));
                    } else if n + 2 <= m < t.len() - 1 {
                        assert(t[m] == sub[m - n - 2]);
                        assert(is_ascii_alnum(sub[m - n - 2]));
                    }
                }
                lemma_char_at_byte_ascii(t, t.len() as int, n + 1);
                lemma_char_at_byte_ascii(t, t.len() as int, n + 2);
                lemma_char_at_byte_ascii(t, t.len() as int, t.len() - 1);
                assert(braced_cut(t, n + 1) == Some((n + 2, t.len() - 1))) by {
                    reveal(braced_cut);
                }
                assert(t.subrange(n + 2, t.len() - 1) =~= sub);
            }
        },
    }
}

/// Two expressions that are the same but for their spans.
pub open spec fn same_shape(a: NodeV, b: NodeV) -> bool
    decreases a,
{
    match a {
        NodeV::Variable(x) => match b {
            NodeV::Variable(y) => x.ident == y.ident && x.subscript == y.subscript && x.is_stdlib == y.is_stdlib,
            _ => false,
        },
        NodeV::Abstraction(x) => match b {
            NodeV::Abstraction(y) => same_shape(*x.bound, *y.bound) && same_shape(*x.body, *y.body),
            _ => false,
        },
        NodeV::Application(x) => match b {
            NodeV::Application(y) => same_shape(*x.left, *y.left) && same_shape(*x.right, *y.right),
            _ => false,
        },
    }
}

/// Every prefix of `s` holds at least as many `(` as `)`, and `s` as a
/// whole holds as many of each.
pub open spec fn balanced(s: Seq<char>) -> bool {
    &&& forall|k: int| 0 <= k <= s.len() ==> #[trigger] depth(s, seq!['('], ')', k) >= 0
    &&& depth(s, seq!['('], ')', s.len() as int) == 0
}

/// The text `s` in one more pair of parentheses.
pub open spec fn parenthesised(s: Seq<char>) -> Seq<char> {
    seq!['('] + s + seq![')']
}

/// Reading the same text at two starting positions succeeds for both or
/// for neither; the expressions read differ only in their spans, which end
/// as far from their own starting position.
pub open spec fn read_alike(r1: Result<NodeV, ErrV>, st1: int, r2: Result<NodeV, ErrV>, st2: int) -> bool {
    &&& (r1 is Ok) == (r2 is Ok)
    &&& r1 matches Ok(n1) ==> r2 matches Ok(n2) && same_shape(n1, n2) && node_span(n1).end - st1 == node_span(
        n2,
    ).end - st2
}

proof fn lemma_same_shape_refl(n: NodeV)
    ensures
        same_shape(n, n),
    decreases n,
{
    match n {
        NodeV::Variable(_) => {},
        NodeV::Abstraction(x) => {
            lemma_same_shape_refl(*x.bound);
            lemma_same_shape_refl(*x.body);
        },
        NodeV::Application(x) => {
            lemma_same_shape_refl(*x.left);
            lemma_same_shape_refl(*x.right);
        },
    }
}

/// A variable reads the same at any position, its span moved along.
proof fn lemma_variable_shift(s: Seq<char>, st1: int, st2: int)
    requires
        0 <= st1,
        0 <= st2,
        st1 + 4 * s.len() + 4 <= usize::MAX,
        st2 + 4 * s.len() + 4 <= usize::MAX,
    ensures
        (spec_parse_variable(s, st1) is Ok) == (spec_parse_variable(s, st2) is Ok),
        spec_parse_variable(s, st1) matches Ok(v1) ==> spec_parse_variable(s, st2) matches Ok(v2) && v1.ident
            == v2.ident && v1.subscript == v2.subscript && v1.is_stdlib == v2.is_stdlib && v1.span.start == st1
            && v2.span.start == st2 && v1.span.end - st1 == v2.span.end - st2,
{
    lemma_byte_len_one(s);
    if s.len() > 0 && byte_len(s) != 1 {
        lemma_upper_run(s, 1);
        let b = base_len(s);
        if b < s.len() && s[b] == '_' && b + 1 < s.len() {
            let next = s[b + 1];
            lemma_encode_len(seq![next]);
            if next == '{' {
                lemma_braced_cut(s, b + 1);
                if let Some((x, y)) = braced_cut(s, b + 1) {
                    lemma_encode_len(s.subrange(x, y));
                }
            }
        }
    }
}

/// Reading succeeds for both or for neither, and gives the same expression
/// but for spans.
pub open spec fn alike(r1: Result<NodeV, ErrV>, r2: Result<NodeV, ErrV>) -> bool {
    &&& (r1 is Ok) == (r2 is Ok)
    &&& r1 matches Ok(n1) ==> r2 matches Ok(n2) && same_shape(n1, n2)
}

/// What the two readings of an abstraction that starts a text share.
pub open spec fn abstractions_alike(r1: Result<AbsV, ErrV>, st1: int, r2: Result<AbsV, ErrV>, st2: int) -> bool {
    &&& (r1 is Ok) == (r2 is Ok)
    &&& r1 matches Ok(a1) ==> r2 matches Ok(a2) && same_shape(*a1.bound, *a2.bound) && same_shape(*a1.body, *a2.body)
        && a1.span.start == st1 && a2.span.start == st2 && a1.span.end - st1 == a2.span.end - st2
}

/// The cuts a text opened by a parenthesised part is read at, when that
/// part does not enclose the whole text: the part's inside and the rest.
pub open spec fn paren_cuts(s: Seq<char>, a: int, e: int) -> Option<(int, int, int)> {
    match (char_at_byte(s, a + 1), char_at_byte(s, e), char_at_byte(s, e + 1)) {
        (Some(x), Some(y), Some(z)) => if x <= y {
            Some((x, y, z))
        } else {
            None
        },
        _ => None,
    }
}

/// A text opened by a parenthesised part that is followed by more reads
/// alike at two positions when both parts do.
proof fn lemma_paren_app_alike(s: Seq<char>, st1: int, st2: int, off: int, a: int, e: int)
    requires
        0 <= st1 <= usize::MAX,
        0 <= st2 <= usize::MAX,
        s.len() > 0,
        s[0] == '(',
        closing_delim(s, seq!['('], ')') == Ok::<(int, int), int>((a, e)),
        0 <= a < e < s.len(),
        !(a == 0 && e == byte_len(s) - 1),
        paren_cuts(s, a, e) matches Some((x, y, z)) ==> read_alike(
            spec_parse_node(s.subrange(x, y), st1),
            st1,
            spec_parse_node(s.subrange(x, y), st2),
            st2,
        ) && read_alike(
            spec_parse_node(s.skip(z), st1 + e + 1),
            st1 + e + 1,
            spec_parse_node(s.skip(z), st2 + e + 1),
            st2 + e + 1,
        ),
    ensures
        read_alike(parse_node_from(s, st1, off), st1, parse_node_from(s, st2, off), st2),
{
}

/// A text opened by an abstraction reads alike from two positions and
/// offsets when the abstraction, and what follows it, do.
proof fn lemma_lambda_alike(s: Seq<char>, st1: int, off1: int, st2: int, off2: int)
    requires
        0 <= st1 <= usize::MAX,
        0 <= st2 <= usize::MAX,
        s.len() > 0,
        s[0] != '(',
        is_lambda_char(s[0]),
        abstractions_alike(spec_parse_abstraction(s, st1 + off1), st1 + off1, spec_parse_abstraction(s, st2 + off2), st2 + off2),
        spec_parse_abstraction(s, st1 + off1) matches Ok(a1) ==> spec_parse_abstraction(s, st2 + off2) matches Ok(a2)
            ==> 0 < a1.span.end - a1.span.start ==> (char_at_byte(s, a1.span.end - a1.span.start) matches Some(z)
            ==> read_alike(
            spec_parse_node(s.skip(z), a1.span.end as int),
            a1.span.end as int,
            spec_parse_node(s.skip(z), a2.span.end as int),
            a2.span.end as int,
        )),
    ensures
        alike(parse_node_from(s, st1, off1), parse_node_from(s, st2, off2)),
        parse_node_from(s, st1, off1) matches Ok(n1) ==> parse_node_from(s, st2, off2) matches Ok(n2)
            ==> node_span(n1).end - st1 - off1 == node_span(n2).end - st2 - off2,
{
    let r1 = spec_parse_abstraction(s, st1 + off1);
    let r2 = spec_parse_abstraction(s, st2 + off2);
    if r1 is Ok {
        let a1 = r1->Ok_0;
        let a2 = r2->Ok_0;
        let l = a1.span.end - a1.span.start;
        assert(a2.span.end - a2.span.start == l);
        assert(same_shape(NodeV::Abstraction(a1), NodeV::Abstraction(a2)));
        if 0 < l < byte_len(s) {
            match char_at_byte(s, l) {
                None => {
                    assert(parse_node_from(s, st1, off1) is Err);
                    assert(parse_node_from(s, st2, off2) is Err);
                },
                Some(z) => {
                    if s.skip(z) != seq![')'] {
                        let q1 = spec_parse_node(s.skip(z), a1.span.end as int);
                        let q2 = spec_parse_node(s.skip(z), a2.span.end as int);
                        if q1 is Ok {
                            let n1 = q1->Ok_0;
                            let n2 = q2->Ok_0;
                            assert(parse_node_from(s, st1, off1) == Ok::<NodeV, ErrV>(
                                NodeV::Application(
                                    AppV { left: Box::new(NodeV::Abstraction(a1)), right: Box::new(n1), span: mk_span(st1, node_span(n1).end as int) },
                                ),
                            ));
                            assert(parse_node_from(s, st2, off2) == Ok::<NodeV, ErrV>(
                                NodeV::Application(
                                    AppV { left: Box::new(NodeV::Abstraction(a2)), right: Box::new(n2), span: mk_span(st2, node_span(n2).end as int) },
                                ),
                            ));
                        } else {
                            assert(parse_node_from(s, st1, off1) is Err);
                            assert(parse_node_from(s, st2, off2) is Err);
                        }
                    } else {
                        assert(parse_node_from(s, st1, off1) == Ok::<NodeV, ErrV>(NodeV::Abstraction(a1)));
                        assert(parse_node_from(s, st2, off2) == Ok::<NodeV, ErrV>(NodeV::Abstraction(a2)));
                    }
                },
            }
        } else {
            assert(parse_node_from(s, st1, off1) == Ok::<NodeV, ErrV>(NodeV::Abstraction(a1)));
            assert(parse_node_from(s, st2, off2) == Ok::<NodeV, ErrV>(NodeV::Abstraction(a2)));
        }
    } else {
        assert(parse_node_from(s, st1, off1) is Err);
        assert(parse_node_from(s, st2, off2) is Err);
    }
}

/// A text opened by a variable reads alike from two positions when what
/// follows the variable does.
proof fn lemma_variable_alike(s: Seq<char>, st1: int, st2: int, off: int)
    requires
        0 <= st1 <= usize::MAX,
        0 <= st2 <= usize::MAX,
        !(s.len() > 0 && s[0] == '('),
        !(s.len() > 0 && is_lambda_char(s[0])),
        (spec_parse_variable(s, st1) is Ok) == (spec_parse_variable(s, st2) is Ok),
        spec_parse_variable(s, st1) matches Ok(v1) ==> spec_parse_variable(s, st2) matches Ok(v2) && v1.ident
            == v2.ident && v1.subscript == v2.subscript && v1.is_stdlib == v2.is_stdlib && v1.span.start == st1
            && v2.span.start == st2 && v1.span.end - st1 == v2.span.end - st2,
        spec_parse_variable(s, st1) matches Ok(v1) ==> spec_parse_variable(s, st2) matches Ok(v2)
            ==> 0 < v1.span.end - v1.span.start ==> (char_at_byte(s, v1.span.end - v1.span.start) matches Some(z)
            ==> read_alike(
            spec_parse_node(s.skip(z), v1.span.end as int),
            v1.span.end as int,
            spec_parse_node(s.skip(z), v2.span.end as int),
            v2.span.end as int,
        )),
    ensures
        read_alike(parse_node_from(s, st1, off), st1, parse_node_from(s, st2, off), st2),
{
    let r1 = spec_parse_variable(s, st1);
    let r2 = spec_parse_variable(s, st2);
    if r1 is Ok {
        let v1 = r1->Ok_0;
        let v2 = r2->Ok_0;
        let l = v1.span.end - v1.span.start;
        assert(v2.span.end - v2.span.start == l);
        assert(same_shape(NodeV::Variable(v1), NodeV::Variable(v2)));
        if 0 < l < byte_len(s) {
            match char_at_byte(s, l) {
                None => {
                    assert(parse_node_from(s, st1, off) is Err);
                    assert(parse_node_from(s, st2, off) is Err);
                },
                Some(z) => {
                    let q1 = spec_parse_node(s.skip(z), v1.span.end as int);
                    let q2 = spec_parse_node(s.skip(z), v2.span.end as int);
                    if q1 is Ok {
                        let n1 = q1->Ok_0;
                        let n2 = q2->Ok_0;
                        assert(parse_node_from(s, st1, off) == Ok::<NodeV, ErrV>(
                            NodeV::Application(
                                AppV { left: Box::new(NodeV::Variable(v1)), right: Box::new(n1), span: mk_span(st1, node_span(n1).end as int) },
                            ),
                        ));
                        assert(parse_node_from(s, st2, off) == Ok::<NodeV, ErrV>(
                            NodeV::Application(
                                AppV { left: Box::new(NodeV::Variable(v2)), right: Box::new(n2), span: mk_span(st2, node_span(n2).end as int) },
                            ),
                        ));
                    } else {
                        assert(parse_node_from(s, st1, off) is Err);
                        assert(parse_node_from(s, st2, off) is Err);
                    }
                },
            }
        } else {
            assert(parse_node_from(s, st1, off) == Ok::<NodeV, ErrV>(NodeV::Variable(v1)));
            assert(parse_node_from(s, st2, off) == Ok::<NodeV, ErrV>(NodeV::Variable(v2)));
        }
    } else {
        assert(parse_node_from(s, st1, off) is Err);
        assert(parse_node_from(s, st2, off) is Err);
    }
}

/// An expression reads the same at any position, spans moved along.
proof fn lemma_node_shift(s: Seq<char>, st1: int, st2: int, off: int)
    requires
        0 <= st1,
        0 <= st2,
        0 <= off,
        st1 + off + 4 * s.len() + 4 <= usize::MAX,
        st2 + off + 4 * s.len() + 4 <= usize::MAX,
    ensures
        read_alike(parse_node_from(s, st1, off), st1, parse_node_from(s, st2, off), st2),
    decreases s.len(), 2int,
{
    if s.len() > 0 && s[0] == '(' {
        lemma_paren_shift(s, st1, st2, off);
    } else if s.len() > 0 && is_lambda_char(s[0]) {
        lemma_lambda_shift(s, st1, st2, off);
    } else {
        lemma_variable_shift(s, st1, st2);
        let r1 = spec_parse_variable(s, st1);
        let r2 = spec_parse_variable(s, st2);
        if r1 is Ok {
            let v1 = r1->Ok_0;
            let v2 = r2->Ok_0;
            let l = v1.span.end - v1.span.start;
            lemma_char_at_byte(s, l);
            if let Some(z) = char_at_byte(s, l) {
                if 0 < z {
                    lemma_node_shift(s.skip(z), v1.span.end as int, v2.span.end as int, 0);
                }
            }
        }
        lemma_variable_alike(s, st1, st2, off);
    }
}

/// `lemma_node_shift` for a text opened by `(`.
proof fn lemma_paren_shift(s: Seq<char>, st1: int, st2: int, off: int)
    requires
        0 <= st1,
        0 <= st2,
        0 <= off,
        st1 + off + 4 * s.len() + 4 <= usize::MAX,
        st2 + off + 4 * s.len() + 4 <= usize::MAX,
        s.len() > 0,
        s[0] == '(',
    ensures
        read_alike(parse_node_from(s, st1, off), st1, parse_node_from(s, st2, off), st2),
    decreases s.len(), 1int,
{
    lemma_closing_delim_bounds(s, seq!['('], ')');
    lemma_encode_len(s);
    match closing_delim(s, seq!['('], ')') {
        Err(_) => {},
        Ok((a, e)) => {
            if a == 0 && e == byte_len(s) - 1 {
                lemma_node_shift(s.subrange(1, s.len() - 1), st1, st2, off + 1);
            } else {
                lemma_char_at_byte(s, a + 1);
                lemma_char_at_byte(s, e);
                lemma_char_at_byte(s, e + 1);
                if let Some((x, y, z)) = paren_cuts(s, a, e) {
                    lemma_node_shift(s.subrange(x, y), st1, st2, 0);
                    lemma_node_shift(s.skip(z), st1 + e + 1, st2 + e + 1, 0);
                }
                lemma_paren_app_alike(s, st1, st2, off, a, e);
            }
        },
    }
}

/// `lemma_node_shift` for a text opened by a lambda character.
proof fn lemma_lambda_shift(s: Seq<char>, st1: int, st2: int, off: int)
    requires
        0 <= st1,
        0 <= st2,
        0 <= off,
        st1 + off + 4 * s.len() + 4 <= usize::MAX,
        st2 + off + 4 * s.len() + 4 <= usize::MAX,
        s.len() > 0,
        s[0] != '(',
        is_lambda_char(s[0]),
    ensures
        read_alike(parse_node_from(s, st1, off), st1, parse_node_from(s, st2, off), st2),
    decreases s.len(), 1int,
{
    lemma_abstraction_shift(s, st1 + off, st2 + off);
    let r1 = spec_parse_abstraction(s, st1 + off);
    let r2 = spec_parse_abstraction(s, st2 + off);
    if r1 is Ok {
        let ab1 = r1->Ok_0;
        let ab2 = r2->Ok_0;
        let l = ab1.span.end - ab1.span.start;
        lemma_char_at_byte(s, l);
        if let Some(z) = char_at_byte(s, l) {
            if 0 < z {
                lemma_node_shift(s.skip(z), ab1.span.end as int, ab2.span.end as int, 0);
            }
        }
    }
    lemma_lambda_alike(s, st1, off, st2, off);
}

/// An abstraction reads the same at any position, spans moved along.
proof fn lemma_abstraction_shift(s: Seq<char>, st1: int, st2: int)
    requires
        0 <= st1,
        0 <= st2,
        st1 + 4 * s.len() + 4 <= usize::MAX,
        st2 + 4 * s.len() + 4 <= usize::MAX,
    ensures
        abstractions_alike(spec_parse_abstraction(s, st1), st1, spec_parse_abstraction(s, st2), st2),
    decreases s.len(), 0int,
{
    if s.len() > 0 && is_lambda_char(s[0]) {
        let rest = s.skip(1);
        let k = dot_pos(rest);
        if 0 < k <= rest.len() {
            lemma_node_shift(rest.take(k), st1 + 1, st2 + 1, 0);
            if 1 + k < s.len() {
                lemma_char_at_byte(s, k + 2);
                if let Some(z) = char_at_byte(s, k + 2) {
                    lemma_node_shift(s.skip(z), st1 + k + 2, st2 + k + 2, 0);
                }
            }
        }
    }
}

/// How many pairs of enclosing parentheses were taken off before reading
/// changes nothing but spans.
proof fn lemma_node_offset(s: Seq<char>, st: int, o1: int, o2: int)
    requires
        0 <= st,
        0 <= o1,
        0 <= o2,
        st + o1 + 4 * s.len() + 4 <= usize::MAX,
        st + o2 + 4 * s.len() + 4 <= usize::MAX,
    ensures
        alike(parse_node_from(s, st, o1), parse_node_from(s, st, o2)),
    decreases s.len(),
{
    if s.len() > 0 && s[0] == '(' {
        lemma_closing_delim_bounds(s, seq!['('], ')');
        lemma_encode_len(s);
        match closing_delim(s, seq!['('], ')') {
            Err(_) => {},
            Ok((a, e)) => {
                if a == 0 && e == byte_len(s) - 1 {
                    lemma_node_offset(s.subrange(1, s.len() - 1), st, o1 + 1, o2 + 1);
                } else {
                    assert(parse_node_from(s, st, o1) == parse_node_from(s, st, o2));
                    if parse_node_from(s, st, o1) is Ok {
                        lemma_same_shape_refl(parse_node_from(s, st, o1)->Ok_0);
                    }
                }
            },
        }
    } else if s.len() > 0 && is_lambda_char(s[0]) {
        lemma_abstraction_shift(s, st + o1, st + o2);
        let r1 = spec_parse_abstraction(s, st + o1);
        let r2 = spec_parse_abstraction(s, st + o2);
        if r1 is Ok {
            let ab1 = r1->Ok_0;
            let ab2 = r2->Ok_0;
            let l = ab1.span.end - ab1.span.start;
            lemma_char_at_byte(s, l);
            if let Some(z) = char_at_byte(s, l) {
                if 0 < z {
                    lemma_node_shift(s.skip(z), ab1.span.end as int, ab2.span.end as int, 0);
                }
            }
        }
        lemma_lambda_alike(s, st, o1, st, o2);
    } else {
        assert(parse_node_from(s, st, o1) == parse_node_from(s, st, o2));
        if parse_node_from(s, st, o1) is Ok {
            lemma_same_shape_refl(parse_node_from(s, st, o1)->Ok_0);
        }
    }
}

/// Scanning a balanced text after its opening `(` finds the closing `)`
/// just past its end, whatever follows it.
proof fn lemma_parenthesised_scan(s: Seq<char>, rest: Seq<char>, i: int)
    requires
        balanced(s),
        1 <= i <= s.len() + 1,
    ensures
        delim_scan(parenthesised(s) + rest, seq!['('], ')', i, 1 + depth(s, seq!['('], ')', i - 1), 0) == Ok::<
            (int, int),
            int,
        >((0, s.len() + 1 as int)),
    decreases s.len() + 1 - i,
{
    let t = parenthesised(s) + rest;
    assert(t.len() == s.len() + 2 + rest.len());
    if i <= s.len() {
        assert(t[i] == s[i - 1]);
        assert(depth(s, seq!['('], ')', i) >= 0);
        lemma_parenthesised_scan(s, rest, i + 1);
    } else {
        assert(t[i] == ')');
        assert(!seq!['('].contains(t[i])) by {
            if seq!['('].contains(t[i]) {
                let k = choose|k: int| 0 <= k < 1 && seq!['('][k] == t[i];
                assert(seq!['('][k] == '(');
            }
        }
    }
}

/// Putting one more pair of parentheses around a balanced ASCII text
/// changes neither whether it reads as an expression nor, spans aside,
/// which expression it reads as.
pub proof fn lemma_redundant_parentheses(s: Seq<char>, start: int)
    requires
        balanced(s),
        vstd::utf8::is_ascii_chars(s),
        0 <= start,
        start + 4 * parenthesised(s).len() + 4 <= usize::MAX,
    ensures
        (spec_parse_node(parenthesised(s), start) is Ok) == (spec_parse_node(s, start) is Ok),
        spec_parse_node(parenthesised(s), start) matches Ok(n1) ==> spec_parse_node(s, start) matches Ok(n2)
            && same_shape(n1, n2),
{
    let t = parenthesised(s);
    assert(t.len() == s.len() + 2);
    assert(t[0] == '(');
    assert(seq!['('].contains(t[0])) by {
        assert(seq!['('][0] == t[0]);
    }
    lemma_parenthesised_scan(s, Seq::empty(), 1);
    assert(parenthesised(s) + Seq::<char>::empty() =~= t);
    assert(closing_delim(t, seq!['('], ')') == Ok::<(int, int), int>((0, t.len() - 1)));
    assert(t.subrange(1, t.len() - 1) =~= s);
    assert(vstd::utf8::is_ascii_chars(t)) by {
        assert forall|i: int| 0 <= i < t.len() implies '\0' <= #[trigger] t[i] <= '\u{7f}' by {
            if 1 <= i < t.len() - 1 {
                assert(t[i] == s[i - 1]);
            }
        }
    }
    vstd::utf8::is_ascii_chars_encode_utf8(t);
    assert(byte_len(t) == t.len());
    lemma_node_offset(s, start, 1, 0);
}

/// `s` with each `λ` written `L`, the lambda character that reading
/// accepts within ASCII text.
pub open spec fn with_l(s: Seq<char>) -> Seq<char> {
    s.map_values(|c: char| if c == 'λ' { 'L' } else { c })
}

/// Reading `t` at `start` gives an expression that is `n` but for spans.
pub open spec fn reads_back_as(t: Seq<char>, start: int, n: NodeV) -> bool {
    spec_parse_node(t, start) matches Ok(r) && same_shape(r, n)
}

proof fn lemma_same_shape_trans(a: NodeV, b: NodeV, c: NodeV)
    requires
        same_shape(a, b),
        same_shape(b, c),
    ensures
        same_shape(a, c),
    decreases a,
{
    match a {
        NodeV::Variable(_) => {},
        NodeV::Abstraction(x) => {
            let y = b->Abstraction_0;
            let z = c->Abstraction_0;
            lemma_same_shape_trans(*x.bound, *y.bound, *z.bound);
            lemma_same_shape_trans(*x.body, *y.body, *z.body);
        },
        NodeV::Application(x) => {
            let y = b->Application_0;
            let z = c->Application_0;
            lemma_same_shape_trans(*x.left, *y.left, *z.left);
            lemma_same_shape_trans(*x.right, *y.right, *z.right);
        },
    }
}

/// The text of an abstraction with `λ` written `L`.
pub open spec fn abstraction_text(a: AbsV) -> Seq<char> {
    with_l(node_text(NodeV::Abstraction(a)))
}

/// The text of an application of two abstractions reads back as that
/// application, when the text of each abstraction (with `λ` written `L`)
/// is balanced ASCII that reads back as that abstraction at any position:
/// each abstraction keeps to its own part of the text.
pub proof fn lemma_abstraction_application_reads_back(a1: AbsV, a2: AbsV, sp: Span, start: int)
    requires
        balanced(abstraction_text(a1)),
        balanced(abstraction_text(a2)),
        vstd::utf8::is_ascii_chars(abstraction_text(a1)),
        vstd::utf8::is_ascii_chars(abstraction_text(a2)),
        0 <= start,
        start + 4 * (abstraction_text(a1).len() + abstraction_text(a2).len()) + 32 <= usize::MAX,
        forall|k: int|
            0 <= k && k + 4 * abstraction_text(a1).len() + 4 <= usize::MAX ==> #[trigger] reads_back_as(
                abstraction_text(a1),
                k,
                NodeV::Abstraction(a1),
            ),
        forall|k: int|
            0 <= k && k + 4 * abstraction_text(a2).len() + 4 <= usize::MAX ==> #[trigger] reads_back_as(
                abstraction_text(a2),
                k,
                NodeV::Abstraction(a2),
            ),
    ensures
        reads_back_as(
            with_l(
                node_text(
                    NodeV::Application(
                        AppV {
                            left: Box::new(NodeV::Abstraction(a1)),
                            right: Box::new(NodeV::Abstraction(a2)),
                            span: sp,
                        },
                    ),
                ),
            ),
            start,
            NodeV::Application(
                AppV { left: Box::new(NodeV::Abstraction(a1)), right: Box::new(NodeV::Abstraction(a2)), span: sp },
            ),
        ),
{
    let n = NodeV::Application(
        AppV { left: Box::new(NodeV::Abstraction(a1)), right: Box::new(NodeV::Abstraction(a2)), span: sp },
    );
    let t1 = abstraction_text(a1);
    let t2 = abstraction_text(a2);
    let l = node_text(NodeV::Abstraction(a1));
    let r = node_text(NodeV::Abstraction(a2));
    assert(node_text(n) == seq!['('] + l + seq![')', '('] + r + seq![')']);
    let t = with_l(node_text(n));
    assert(t =~= parenthesised(t1) + parenthesised(t2));
    let e: int = t1.len() as int + 1;
    assert(t[0] == '(');
    assert(seq!['('].contains(t[0])) by {
        assert(seq!['('][0] == t[0]);
    }
    lemma_parenthesised_scan(t1, parenthesised(t2), 1);
    assert(closing_delim(t, seq!['('], ')') == Ok::<(int, int), int>((0, e)));
    assert(vstd::utf8::is_ascii_chars(t)) by {
        assert forall|i: int| 0 <= i < t.len() implies '\0' <= #[trigger] t[i] <= '\u{7f}' by {
            if 1 <= i < e {
                assert(t[i] == t1[i - 1]);
            } else if e + 2 <= i < t.len() - 1 {
                assert(t[i] == t2[i - e - 2]);
            }
        }
    }
    vstd::utf8::is_ascii_chars_encode_utf8(t);
    assert(byte_len(t) == t.len());
    assert forall|i: int| 0 <= i < t.len() implies (#[trigger] t[i] as u32) < 128 by {
        assert('\0' <= t[i] <= '\u{7f}');
    }
    lemma_char_at_byte_ascii(t, t.len() as int, 1);
    lemma_char_at_byte_ascii(t, t.len() as int, e);
    lemma_char_at_byte_ascii(t, t.len() as int, e + 1);
    assert(paren_cuts(t, 0, e) == Some((1int, e, e + 1)));
    assert(t.subrange(1, e) =~= t1);
    assert(t.skip(e + 1) =~= parenthesised(t2));
    assert(reads_back_as(t1, start, NodeV::Abstraction(a1)));
    let left = spec_parse_node(t1, start)->Ok_0;
    lemma_redundant_parentheses(t2, start + e + 1);
    assert(reads_back_as(t2, start + e + 1, NodeV::Abstraction(a2)));
    let right = spec_parse_node(parenthesised(t2), start + e + 1)->Ok_0;
    lemma_same_shape_trans(right, spec_parse_node(t2, start + e + 1)->Ok_0, NodeV::Abstraction(a2));
    assert(spec_parse_node(t, start) == parse_node_from(t, start, 0));
    assert(parse_node_from(t, start, 0) == Ok::<NodeV, ErrV>(
        NodeV::Application(AppV { left: Box::new(left), right: Box::new(right), span: mk_span(start, node_span(right).end as int) }),
    ));
}

} // verus!
