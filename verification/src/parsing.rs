//! Programs: lines of statements and assignments (`name := body`).

use vstd::prelude::*;

use crate::assignments::{var_key, Assignments};
use crate::text::{
    char_is_ascii_whitespace, chars_of, find_in_window, find_seq, is_ascii_ws, lemma_trim,
    line_windows, lines, starts_with, trim, trim_window,
};
use crate::types::node::{byte_len, copy_node, node_text, var_text, window_byte_len, Node, NodeV, VarV, VariableNode};
use crate::types::parse::{
    parse_node_window, parse_variable_window, spec_parse_node, spec_parse_variable,
};
use crate::types::{ErrV, ParsingError};

verus! {

/// Whether a line is skipped: a comment (`//...`) or empty.
pub open spec fn is_skipped_line(line: Seq<char>) -> bool {
    starts_with(line, seq!['/', '/']) || line.len() == 0
}

/// Whether a line continues the expression before it: it starts with ASCII
/// whitespace.
pub open spec fn is_continuation(line: Seq<char>) -> bool {
    line.len() > 0 && is_ascii_ws(line[0])
}

/// `acc` followed by the trimmed continuation lines from `ls[j]` on, and
/// the index of the first line that is not a continuation.
pub open spec fn continue_line(ls: Seq<Seq<char>>, j: int, acc: Seq<char>) -> (Seq<char>, int)
    decreases ls.len() - j,
{
    if 0 <= j < ls.len() && is_continuation(ls[j]) {
        continue_line(ls, j + 1, acc + trim(ls[j]))
    } else {
        (acc, j)
    }
}

pub proof fn lemma_continue_line(ls: Seq<Seq<char>>, j: int, acc: Seq<char>)
    requires
        0 <= j <= ls.len(),
    ensures
        j <= continue_line(ls, j, acc).1 <= ls.len(),
        continue_line(ls, j, acc).0.len() <= acc.len() + total_len(ls.skip(j)),
    decreases ls.len() - j,
{
    if 0 <= j < ls.len() && is_continuation(ls[j]) {
        lemma_trim(ls[j]);
        lemma_continue_line(ls, j + 1, acc + trim(ls[j]));
        lemma_total_len_skip(ls, j);
    } else {
        lemma_total_len_nonneg(ls.skip(j));
    }
}

/// The lines `ls[j..e]`, each trimmed, one after another.
pub open spec fn joined_trimmed(ls: Seq<Seq<char>>, j: int, e: int) -> Seq<char>
    decreases e - j,
{
    if e <= j {
        Seq::empty()
    } else {
        joined_trimmed(ls, j, e - 1) + trim(ls[e - 1])
    }
}

proof fn lemma_joined_trimmed_front(ls: Seq<Seq<char>>, j: int, e: int)
    requires
        j < e,
    ensures
        joined_trimmed(ls, j, e) == trim(ls[j]) + joined_trimmed(ls, j + 1, e),
    decreases e - j,
{
    if e == j + 1 {
        assert(joined_trimmed(ls, j, e - 1) == Seq::<char>::empty());
        assert(joined_trimmed(ls, j, e) =~= trim(ls[j]) + joined_trimmed(ls, j + 1, e));
    } else {
        lemma_joined_trimmed_front(ls, j, e - 1);
        assert(joined_trimmed(ls, j, e) =~= trim(ls[j]) + joined_trimmed(ls, j + 1, e));
    }
}

/// Reading continuation lines from `ls[j]` on stops at the first line that
/// does not continue the expression: every line it joins starts with ASCII
/// whitespace, the line it stops at (if any) does not, and the text is
/// `acc` followed by the joined lines, each trimmed.
pub proof fn lemma_continue_line_stops(ls: Seq<Seq<char>>, j: int, acc: Seq<char>)
    requires
        0 <= j <= ls.len(),
    ensures
        j <= continue_line(ls, j, acc).1 <= ls.len(),
        forall|i: int| j <= i < continue_line(ls, j, acc).1 ==> is_continuation(#[trigger] ls[i]),
        continue_line(ls, j, acc).1 < ls.len() ==> !is_continuation(ls[continue_line(ls, j, acc).1]),
        continue_line(ls, j, acc).0 == acc + joined_trimmed(ls, j, continue_line(ls, j, acc).1),
    decreases ls.len() - j,
{
    if 0 <= j < ls.len() && is_continuation(ls[j]) {
        lemma_continue_line_stops(ls, j + 1, acc + trim(ls[j]));
        let e = continue_line(ls, j, acc).1;
        lemma_joined_trimmed_front(ls, j, e);
        assert(acc + trim(ls[j]) + joined_trimmed(ls, j + 1, e) =~= acc + joined_trimmed(ls, j, e));
    } else {
        assert(acc + joined_trimmed(ls, j, j) =~= acc);
    }
}

/// The sum of the lengths of the lines.
pub open spec fn total_len(ls: Seq<Seq<char>>) -> int
    decreases ls.len(),
{
    if ls.len() == 0 {
        0
    } else {
        ls[0].len() + total_len(ls.drop_first())
    }
}

pub proof fn lemma_total_len_nonneg(ls: Seq<Seq<char>>)
    ensures
        total_len(ls) >= 0,
    decreases ls.len(),
{
    if ls.len() > 0 {
        lemma_total_len_nonneg(ls.drop_first());
    }
}

pub proof fn lemma_total_len_skip(ls: Seq<Seq<char>>, j: int)
    requires
        0 <= j < ls.len(),
    ensures
        total_len(ls.skip(j)) == ls[j].len() + total_len(ls.skip(j + 1)),
{
    assert(ls.skip(j).drop_first() =~= ls.skip(j + 1));
}

/// The expressions of a program, line by line: skipped lines are dropped
/// and each expression line takes the continuation lines after it.
pub open spec fn gather(ls: Seq<Seq<char>>, i: int) -> Seq<Seq<char>>
    decreases ls.len() - i,
{
    if i < 0 || i >= ls.len() {
        Seq::empty()
    } else if is_skipped_line(ls[i]) {
        gather(ls, i + 1)
    } else {
        let (line, j) = continue_line(ls, i + 1, ls[i]);
        proof {
            lemma_continue_line(ls, i + 1, ls[i]);
        }
        if j > i {
            seq![line] + gather(ls, j)
        } else {
            Seq::empty()
        }
    }
}

/// The raw expressions of the program text `input`.
pub open spec fn raw_expressions(input: Seq<char>) -> Seq<Seq<char>> {
    gather(lines(input), 0)
}


pub proof fn lemma_total_len_skip_mono(ls: Seq<Seq<char>>, i: int, j: int)
    requires
        0 <= i <= j <= ls.len(),
    ensures
        total_len(ls.skip(j)) <= total_len(ls.skip(i)),
    decreases j - i,
{
    if i < j {
        lemma_total_len_skip(ls, i);
        lemma_total_len_skip_mono(ls, i + 1, j);
    }
}

/// Each gathered expression is no longer than the lines it came from.
pub proof fn lemma_gather_len(ls: Seq<Seq<char>>, i: int)
    requires
        0 <= i <= ls.len(),
    ensures
        forall|k: int|
            0 <= k < gather(ls, i).len() ==> (#[trigger] gather(ls, i)[k]).len() <= total_len(
                ls.skip(i),
            ),
    decreases ls.len() - i,
{
    if i < ls.len() {
        lemma_total_len_skip(ls, i);
        lemma_total_len_nonneg(ls.skip(i + 1));
        if is_skipped_line(ls[i]) {
            assert(gather(ls, i) == gather(ls, i + 1));
            lemma_gather_len(ls, i + 1);
            lemma_total_len_skip_mono(ls, i, i + 1);
        } else {
            let (line, j) = continue_line(ls, i + 1, ls[i]);
            lemma_continue_line(ls, i + 1, ls[i]);
            lemma_gather_len(ls, j);
            lemma_total_len_skip_mono(ls, i + 1, j);
            let g = gather(ls, i);
            assert(g == seq![line] + gather(ls, j));
            assert(line.len() <= total_len(ls.skip(i)));
            assert forall|k: int| 0 <= k < g.len() implies (#[trigger] g[k]).len() <= total_len(
                ls.skip(i),
            ) by {
                if k > 0 {
                    assert(g[k] == gather(ls, j)[k - 1]);
                }
            }
        }
    }
}

/// The lines of a text are no longer, together, than the text.
pub proof fn lemma_lines_len(s: Seq<char>)
    ensures
        total_len(lines(s)) <= s.len(),
    decreases s.len(),
{
    if s.len() > 0 {
        crate::text::lemma_find_seq(s, seq!['\n']);
        match find_seq(s, seq!['\n']) {
            None => {
                assert(lines(s) == seq![s]);
                assert(lines(s).drop_first() =~= Seq::<Seq<char>>::empty());
                assert(total_len(lines(s).drop_first()) == 0);
            },
            Some(i) => {
                lemma_lines_len(s.skip(i + 1));
                assert(lines(s)[0].len() <= i);
                assert(lines(s).drop_first() == lines(s.skip(i + 1)));
                assert(total_len(lines(s)) == lines(s)[0].len() + total_len(lines(s.skip(i + 1))));
            },
        }
    }
}

/// Each raw expression of `input` is no longer than `input`.
pub proof fn lemma_raw_expression_len(input: Seq<char>)
    ensures
        forall|k: int|
            0 <= k < raw_expressions(input).len() ==> (#[trigger] raw_expressions(input)[k]).len()
                <= input.len(),
{
    lemma_gather_len(lines(input), 0);
    lemma_lines_len(input);
    assert(lines(input).skip(0) == lines(input));
}

/// Appends `cs[lo..hi]` to `v`.
fn push_window(v: &mut Vec<char>, cs: &Vec<char>, lo: usize, hi: usize)
    requires
        lo <= hi <= cs@.len(),
    ensures
        final(v)@ == old(v)@ + cs@.subrange(lo as int, hi as int),
{
    let mut i = lo;
    while i < hi
        invariant
            lo <= i <= hi <= cs@.len(),
            v@ == old(v)@ + cs@.subrange(lo as int, i as int),
        decreases hi - i,
    {
        v.push(cs[i]);
        i = i + 1;
    }
}

/// The raw expressions of the text `cs`.
pub fn raw_expression_chars(cs: &Vec<char>) -> (r: Vec<Vec<char>>)
    ensures
        r@.len() == raw_expressions(cs@).len(),
        forall|k: int| 0 <= k < r@.len() ==> (#[trigger] r@[k])@ == raw_expressions(cs@)[k],
{
    let ws = line_windows(cs, 0, cs.len());
    assert(cs@.subrange(0, cs@.len() as int) == cs@);
    let ghost ls = lines(cs@);
    let mut out: Vec<Vec<char>> = Vec::new();
    let mut i: usize = 0;
    while i < ws.len()
        invariant
            0 <= i <= ws@.len(),
            ws@.len() == ls.len(),
            ls == lines(cs@),
            forall|j: int|
                0 <= j < ws@.len() ==> {
                    &&& 0 <= (#[trigger] ws@[j]).0 <= ws@[j].1 <= cs@.len()
                    &&& cs@.subrange(ws@[j].0 as int, ws@[j].1 as int) == ls[j]
                },
            gather(ls, 0) == out@.map_values(|v: Vec<char>| v@) + gather(ls, i as int),
        decreases ws@.len() - i,
    {
        let (a, b) = ws[i];
        assert(cs@.subrange(a as int, b as int) == ls[i as int]);
        let comment = b - a >= 2 && cs[a] == '/' && cs[a + 1] == '/';
        proof {
            if b - a >= 2 {
                assert(ls[i as int].take(2) =~= seq![cs@[a as int], cs@[a + 1]]);
            }
        }
        if comment || a == b {
            i = i + 1;
        } else {
            let mut line: Vec<char> = Vec::new();
            push_window(&mut line, cs, a, b);
            let mut j = i + 1;
            while j < ws.len() && ws[j].0 < ws[j].1 && char_is_ascii_whitespace(cs[ws[j].0])
                invariant
                    i < j <= ws@.len(),
                    ws@.len() == ls.len(),
                    forall|k: int|
                        0 <= k < ws@.len() ==> {
                            &&& 0 <= (#[trigger] ws@[k]).0 <= ws@[k].1 <= cs@.len()
                            &&& cs@.subrange(ws@[k].0 as int, ws@[k].1 as int) == ls[k]
                        },
                    continue_line(ls, i + 1, ls[i as int]) == continue_line(ls, j as int, line@),
                decreases ws@.len() - j,
            {
                let (c, d) = ws[j];
                assert(ls[j as int][0] == cs@[c as int]);
                let (ta, tb) = trim_window(cs, c, d);
                push_window(&mut line, cs, ta, tb);
                j = j + 1;
            }
            proof {
                if j < ws.len() {
                    let (c, d) = ws@[j as int];
                    assert(cs@.subrange(c as int, d as int) == ls[j as int]);
                    if c < d {
                        assert(ls[j as int][0] == cs@[c as int]);
                    }
                }
                lemma_continue_line(ls, i + 1, ls[i as int]);
            }
            let ghost old_out = out@;
            out.push(line);
            assert(out@.map_values(|v: Vec<char>| v@) =~= old_out.map_values(|v: Vec<char>| v@) + seq![
                continue_line(ls, i + 1, ls[i as int]).0,
            ]);
            i = j;
        }
    }
    assert(gather(ls, i as int) =~= Seq::<Seq<char>>::empty());
    assert forall|k: int| 0 <= k < out@.len() implies (#[trigger] out@[k])@ == raw_expressions(cs@)[k] by {
        assert(out@.map_values(|v: Vec<char>| v@)[k] == out@[k]@);
    }
    out
}


/// An assignment `ident := body`.
#[derive(Debug, Clone)]
pub struct LambdaAssignment {
    pub ident: VariableNode,
    pub body: Node,
}

/// A statement: an expression to reduce.
#[derive(Debug, Clone)]
pub struct LambdaStatement {
    pub body: Node,
}

/// What a line of a program is.
#[derive(Debug, Clone)]
pub enum LambdaKind {
    Assignment(LambdaAssignment),
    Statement(LambdaStatement),
}

/// One expression of a program.
#[derive(Debug, Clone)]
pub struct Lambda {
    pub(crate) kind: LambdaKind,
}

/// The content of a program expression.
pub enum LambdaV {
    Assignment(VarV, NodeV),
    Statement(NodeV),
}

impl View for LambdaKind {
    type V = LambdaV;

    open spec fn view(&self) -> LambdaV {
        match self {
            LambdaKind::Assignment(a) => LambdaV::Assignment(a.ident@, a.body@),
            LambdaKind::Statement(s) => LambdaV::Statement(s.body@),
        }
    }
}

impl View for Lambda {
    type V = LambdaV;

    open(crate) spec fn view(&self) -> LambdaV {
        self.kind@
    }
}

/// The text of a program expression: `ident := body`, or the statement's
/// expression.
pub open spec fn lambda_text(l: LambdaV) -> Seq<char> {
    match l {
        LambdaV::Assignment(ident, body) => var_text(ident) + " := "@ + node_text(body),
        LambdaV::Statement(body) => node_text(body),
    }
}

/// What parsing one raw expression gives: an assignment when it holds
/// `:=` (the identifier before it read at position 0, the body after it at
/// the position just past `:=`), a statement read at position 0 otherwise.
pub open spec fn spec_parse_expression(e: Seq<char>) -> Result<LambdaV, ErrV> {
    match find_seq(e, seq![':', '=']) {
        Some(idx) => match spec_parse_variable(e.take(idx), 0) {
            Err(x) => Err(x),
            Ok(ident) => match spec_parse_node(e.skip(idx + 2), byte_len(e.take(idx)) + 2) {
                Err(x) => Err(x),
                Ok(body) => Ok(LambdaV::Assignment(ident, body)),
            },
        },
        None => match spec_parse_node(e, 0) {
            Err(x) => Err(x),
            Ok(body) => Ok(LambdaV::Statement(body)),
        },
    }
}

/// What `Lambda::parse` gives for the program text `input`, expression by
/// expression.
pub open spec fn spec_parse_program(input: Seq<char>) -> Seq<Result<LambdaV, ErrV>> {
    raw_expressions(input).map_values(|e: Seq<char>| spec_parse_expression(e))
}

pub open spec fn lambda_result(r: Result<Lambda, ParsingError>) -> Result<LambdaV, ErrV> {
    match r {
        Ok(l) => Ok(l@),
        Err(e) => Err(e@),
    }
}

/// Parses the raw expression `e`.
fn parse_expression(e: &Vec<char>) -> (r: Result<Lambda, ParsingError>)
    requires
        4 * e@.len() + 8 <= usize::MAX,
    ensures
        lambda_result(r) == spec_parse_expression(e@),
{
    let assign = vec![':', '='];
    assert(assign@ == seq![':', '=']);
    assert(e@.subrange(0, e@.len() as int) == e@);
    proof {
        crate::text::lemma_find_seq(e@, seq![':', '=']);
    }
    match find_in_window(e, 0, e.len(), &assign) {
        Some(idx) => {
            assert(e@.subrange(0, idx as int) == e@.take(idx as int));
            assert(e@.subrange(idx + 2, e@.len() as int) == e@.skip(idx + 2));
            let ident = match parse_variable_window(e, 0, idx, 0) {
                Ok(v) => v,
                Err(x) => {
                    return Err(x);
                },
            };
            let bidx = window_byte_len(e, 0, idx);
            let body = match parse_node_window(e, idx + 2, e.len(), bidx + 2) {
                Ok(b) => b,
                Err(x) => {
                    return Err(x);
                },
            };
            Ok(Lambda { kind: LambdaKind::Assignment(LambdaAssignment { ident, body }) })
        },
        None => {
            match parse_node_window(e, 0, e.len(), 0) {
                Ok(body) => Ok(Lambda { kind: LambdaKind::Statement(LambdaStatement { body }) }),
                Err(x) => Err(x),
            }
        },
    }
}

impl Lambda {
    /// The kind of this expression.
    pub fn kind(&self) -> (r: &LambdaKind)
        ensures
            r@ == self@,
    {
        &self.kind
    }

    /// Reads the program `input`: lines that are empty or start with `//`
    /// are skipped, and a line that starts with ASCII whitespace continues
    /// the expression before it (trimmed). Each expression gives a parsed
    /// `Lambda` or the error met in it.
    pub fn parse(input: &str) -> (r: Vec<Result<Lambda, ParsingError>>)
        requires
            4 * input@.len() + 8 <= usize::MAX,
        ensures
            r@.len() == spec_parse_program(input@).len(),
            forall|k: int|
                0 <= k < r@.len() ==> lambda_result(#[trigger] r@[k]) == spec_parse_program(input@)[k],
    {
        let cs = chars_of(input);
        let exprs = raw_expression_chars(&cs);
        proof {
            lemma_raw_expression_len(cs@);
        }
        let mut out: Vec<Result<Lambda, ParsingError>> = Vec::new();
        let mut i: usize = 0;
        while i < exprs.len()
            invariant
                0 <= i <= exprs@.len(),
                cs@ == input@,
                4 * input@.len() + 8 <= usize::MAX,
                exprs@.len() == raw_expressions(cs@).len(),
                forall|k: int| 0 <= k < exprs@.len() ==> (#[trigger] exprs@[k])@ == raw_expressions(cs@)[k],
                forall|k: int|
                    0 <= k < raw_expressions(cs@).len() ==> (#[trigger] raw_expressions(cs@)[k]).len()
                        <= cs@.len(),
                out@.len() == i,
                forall|k: int|
                    0 <= k < i ==> lambda_result(#[trigger] out@[k]) == spec_parse_program(input@)[k],
            decreases exprs@.len() - i,
        {
            assert(exprs@[i as int]@ == raw_expressions(cs@)[i as int]);
            let r = parse_expression(&exprs[i]);
            out.push(r);
            i = i + 1;
        }
        out
    }
}


/// What collecting the results in order gives: all parsed expressions, or
/// the first error.
pub open spec fn collect_results(rs: Seq<Result<LambdaV, ErrV>>) -> Result<Seq<LambdaV>, ErrV>
    decreases rs.len(),
{
    if rs.len() == 0 {
        Ok(Seq::empty())
    } else {
        match rs[0] {
            Err(e) => Err(e),
            Ok(l) => match collect_results(rs.drop_first()) {
                Err(e) => Err(e),
                Ok(ls) => Ok(seq![l] + ls),
            },
        }
    }
}

pub open spec fn results_view(rs: Seq<Result<Lambda, ParsingError>>) -> Seq<Result<LambdaV, ErrV>> {
    rs.map_values(|r: Result<Lambda, ParsingError>| lambda_result(r))
}

pub open spec fn lambdas_view(ls: Seq<Lambda>) -> Seq<LambdaV> {
    ls.map_values(|l: Lambda| l@)
}

proof fn lemma_collect_prefix(rs: Seq<Result<LambdaV, ErrV>>, i: int, acc: Seq<LambdaV>)
    requires
        0 <= i <= rs.len(),
        collect_results(rs.take(i)) == Ok::<Seq<LambdaV>, ErrV>(acc),
    ensures
        collect_results(rs) == match collect_results(rs.skip(i)) {
            Ok(ls) => Ok::<Seq<LambdaV>, ErrV>(acc + ls),
            Err(e) => Err(e),
        },
    decreases i,
{
    if i > 0 {
        assert(rs.take(i)[0] == rs[0]);
        assert(rs.take(i).drop_first() =~= rs.drop_first().take(i - 1));
        assert(rs.drop_first().skip(i - 1) =~= rs.skip(i));
        match rs[0] {
            Ok(l) => {
                let tail = collect_results(rs.take(i).drop_first());
                assert(tail is Ok);
                lemma_collect_prefix(rs.drop_first(), i - 1, tail->Ok_0);
                assert(acc == seq![l] + tail->Ok_0);
                match collect_results(rs.skip(i)) {
                    Ok(ls) => {
                        assert(seq![l] + (tail->Ok_0 + ls) =~= acc + ls);
                    },
                    Err(_) => {},
                }
            },
            Err(_) => {},
        }
    } else {
        assert(rs.skip(0) == rs);
        assert(collect_results(rs.take(0)) == Ok::<Seq<LambdaV>, ErrV>(Seq::empty()));
        assert(acc =~= Seq::<LambdaV>::empty());
        match collect_results(rs) {
            Ok(ls) => {
                assert(acc + ls =~= ls);
            },
            Err(_) => {},
        }
    }
}

proof fn lemma_collect_step(rs: Seq<Result<LambdaV, ErrV>>, i: int, acc: Seq<LambdaV>)
    requires
        0 <= i < rs.len(),
        collect_results(rs.take(i)) == Ok::<Seq<LambdaV>, ErrV>(acc),
    ensures
        rs[i] matches Ok(l) ==> collect_results(rs.take(i + 1)) == Ok::<Seq<LambdaV>, ErrV>(acc.push(l)),
        rs[i] matches Err(e) ==> collect_results(rs) == Err::<Seq<LambdaV>, ErrV>(e),
{
    let t = rs.take(i + 1);
    assert(t.take(i) =~= rs.take(i));
    lemma_collect_prefix(t, i, acc);
    assert(t.skip(i) =~= seq![rs[i]]);
    let e = t.skip(i).drop_first();
    assert(e =~= Seq::<Result<LambdaV, ErrV>>::empty());
    assert(collect_results(e) == Ok::<Seq<LambdaV>, ErrV>(Seq::empty()));
    match rs[i] {
        Ok(l) => {
            assert(collect_results(t.skip(i)) == Ok::<Seq<LambdaV>, ErrV>(seq![l] + Seq::empty()));
            assert(acc + (seq![l] + Seq::<LambdaV>::empty()) =~= acc.push(l));
        },
        Err(e) => {
            lemma_collect_prefix(rs, i, acc);
            assert(rs.skip(i)[0] == rs[i]);
        },
    }
}

/// Collecting a program's results, stopping at the first error.
pub trait UnwrapExpressions {
    fn unwrap_expressions(self) -> Result<Vec<Lambda>, ParsingError>;
}

impl UnwrapExpressions for Vec<Result<Lambda, ParsingError>> {
    /// All parsed expressions, in order, or the first error.
    fn unwrap_expressions(self) -> (r: Result<Vec<Lambda>, ParsingError>)
        ensures
            match r {
                Ok(ls) => collect_results(results_view(self@)) == Ok::<Seq<LambdaV>, ErrV>(lambdas_view(ls@)),
                Err(e) => collect_results(results_view(self@)) == Err::<Seq<LambdaV>, ErrV>(e@),
            },
    {
        let ghost rs = results_view(self@);
        let mut out: Vec<Lambda> = Vec::new();
        let mut rest = self;
        let n = rest.len();
        let mut i: usize = 0;
        assert(rs.take(0) =~= Seq::<Result<LambdaV, ErrV>>::empty());
        assert(lambdas_view(out@) =~= Seq::<LambdaV>::empty());
        assert(collect_results(rs.take(0)) == Ok::<Seq<LambdaV>, ErrV>(Seq::empty()));
        while i < n
            invariant
                0 <= i <= n,
                rs.len() == n,
                rs == results_view(self@),
                rest@.len() == n - i,
                forall|k: int| 0 <= k < n - i ==> lambda_result(#[trigger] rest@[k]) == rs[i + k],
                collect_results(rs.take(i as int)) == Ok::<Seq<LambdaV>, ErrV>(lambdas_view(out@)),
            decreases n - i,
        {
            let ghost before = rest@;
            let item = rest.remove(0);
            assert forall|k: int| 0 <= k < n - i - 1 implies lambda_result(#[trigger] rest@[k]) == rs[i + 1 + k] by {
                assert(rest@[k] == before[k + 1]);
            }
            assert(lambda_result(item) == rs[i as int]);
            match item {
                Ok(l) => {
                    proof {
                        lemma_collect_step(rs, i as int, lambdas_view(out@));
                    }
                    let ghost old_out = out@;
                    out.push(l);
                    assert(lambdas_view(out@) =~= lambdas_view(old_out).push(l@));
                },
                Err(e) => {
                    proof {
                        lemma_collect_step(rs, i as int, lambdas_view(out@));
                    }
                    return Err(e);
                },
            }
            i = i + 1;
        }
        assert(rs.take(n as int) =~= rs);
        Ok(out)
    }
}


/// The assignments among `ls`, in order.
pub open spec fn assignments_of(ls: Seq<LambdaV>) -> Seq<(VarV, NodeV)>
    decreases ls.len(),
{
    if ls.len() == 0 {
        Seq::empty()
    } else {
        let rest = assignments_of(ls.drop_last());
        match ls.last() {
            LambdaV::Assignment(i, b) => rest.push((i, b)),
            LambdaV::Statement(_) => rest,
        }
    }
}

/// The statements among `ls`, in order.
pub open spec fn statements_of(ls: Seq<LambdaV>) -> Seq<NodeV>
    decreases ls.len(),
{
    if ls.len() == 0 {
        Seq::empty()
    } else {
        let rest = statements_of(ls.drop_last());
        match ls.last() {
            LambdaV::Assignment(_, _) => rest,
            LambdaV::Statement(b) => rest.push(b),
        }
    }
}

/// Splitting a program loses and adds nothing: every expression is either
/// an assignment or a statement.
pub proof fn lemma_partition_counts(ls: Seq<LambdaV>)
    ensures
        assignments_of(ls).len() + statements_of(ls).len() == ls.len(),
    decreases ls.len(),
{
    if ls.len() > 0 {
        lemma_partition_counts(ls.drop_last());
    }
}

/// A program with an assignment binds that assignment's name.
pub proof fn lemma_assignment_binds(ls: Seq<LambdaV>, i: int)
    requires
        0 <= i < ls.len(),
        ls[i] is Assignment,
    ensures
        assignment_bindings(ls).contains_key(var_key(ls[i]->Assignment_0)),
    decreases ls.len(),
{
    if i < ls.len() - 1 {
        lemma_assignment_binds(ls.drop_last(), i);
    }
}

/// The assignments and the statements of a program, each in order.
#[derive(Debug, Clone)]
pub struct Unzipped {
    pub assignments: Vec<LambdaAssignment>,
    pub statements: Vec<LambdaStatement>,
}

pub open spec fn assignment_views(v: Seq<LambdaAssignment>) -> Seq<(VarV, NodeV)> {
    v.map_values(|a: LambdaAssignment| (a.ident@, a.body@))
}

pub open spec fn statement_views(v: Seq<LambdaStatement>) -> Seq<NodeV> {
    v.map_values(|a: LambdaStatement| a.body@)
}

/// The binding an assignment makes.
pub open spec fn assignment_part(l: LambdaV) -> (VarV, NodeV) {
    match l {
        LambdaV::Assignment(i, b) => (i, b),
        LambdaV::Statement(b) => (arbitrary(), b),
    }
}

/// The expression of a statement.
pub open spec fn statement_part(l: LambdaV) -> NodeV {
    match l {
        LambdaV::Assignment(_, b) => b,
        LambdaV::Statement(b) => b,
    }
}

impl Unzipped {
    /// Gathers already separated expressions: the first list holds only
    /// assignments, the second only statements.
    pub fn from(value: (Vec<Lambda>, Vec<Lambda>)) -> (r: Self)
        requires
            forall|i: int| 0 <= i < value.0@.len() ==> (#[trigger] value.0@[i])@ is Assignment,
            forall|i: int| 0 <= i < value.1@.len() ==> (#[trigger] value.1@[i])@ is Statement,
        ensures
            assignment_views(r.assignments@) == lambdas_view(value.0@).map_values(|l: LambdaV| assignment_part(l)),
            statement_views(r.statements@) == lambdas_view(value.1@).map_values(|l: LambdaV| statement_part(l)),
    {
        let (a, st) = value;
        let mut assignments: Vec<LambdaAssignment> = Vec::new();
        let mut i: usize = 0;
        while i < a.len()
            invariant
                0 <= i <= a@.len(),
                forall|k: int| 0 <= k < a@.len() ==> (#[trigger] a@[k])@ is Assignment,
                assignment_views(assignments@) == lambdas_view(a@).take(i as int).map_values(
                    |l: LambdaV| assignment_part(l),
                ),
            decreases a@.len() - i,
        {
            let ghost before = assignment_views(assignments@);
            assert(a@[i as int]@ is Assignment);
            match &a[i].kind {
                LambdaKind::Assignment(x) => {
                    assignments.push(LambdaAssignment { ident: x.ident.copy(), body: copy_node(&x.body) });
                },
                LambdaKind::Statement(_) => {},
            }
            assert(assignment_views(assignments@) =~= before.push(assignment_part(a@[i as int]@)));
            assert(lambdas_view(a@).take(i + 1).map_values(|l: LambdaV| assignment_part(l)) =~= lambdas_view(
                a@,
            ).take(i as int).map_values(|l: LambdaV| assignment_part(l)).push(assignment_part(a@[i as int]@)));
            i = i + 1;
        }
        assert(lambdas_view(a@).take(i as int) =~= lambdas_view(a@));
        let mut statements: Vec<LambdaStatement> = Vec::new();
        let mut j: usize = 0;
        while j < st.len()
            invariant
                0 <= j <= st@.len(),
                forall|k: int| 0 <= k < st@.len() ==> (#[trigger] st@[k])@ is Statement,
                statement_views(statements@) == lambdas_view(st@).take(j as int).map_values(
                    |l: LambdaV| statement_part(l),
                ),
            decreases st@.len() - j,
        {
            let ghost before = statement_views(statements@);
            assert(st@[j as int]@ is Statement);
            match &st[j].kind {
                LambdaKind::Statement(x) => {
                    statements.push(LambdaStatement { body: copy_node(&x.body) });
                },
                LambdaKind::Assignment(_) => {},
            }
            assert(statement_views(statements@) =~= before.push(statement_part(st@[j as int]@)));
            assert(lambdas_view(st@).take(j + 1).map_values(|l: LambdaV| statement_part(l)) =~= lambdas_view(
                st@,
            ).take(j as int).map_values(|l: LambdaV| statement_part(l)).push(statement_part(st@[j as int]@)));
            j = j + 1;
        }
        assert(lambdas_view(st@).take(j as int) =~= lambdas_view(st@));
        Unzipped { assignments, statements }
    }
}

/// Splits `ls` into its assignments and its statements.
pub fn partition_lambdas(ls: Vec<Lambda>) -> (r: Unzipped)
    ensures
        assignment_views(r.assignments@) == assignments_of(lambdas_view(ls@)),
        statement_views(r.statements@) == statements_of(lambdas_view(ls@)),
{
    let ghost all = lambdas_view(ls@);
    let mut rest = ls;
    let mut assignments: Vec<LambdaAssignment> = Vec::new();
    let mut statements: Vec<LambdaStatement> = Vec::new();
    let n = rest.len();
    let mut i: usize = 0;
    assert(all.take(0) =~= Seq::<LambdaV>::empty());
    while i < n
        invariant
            0 <= i <= n,
            all.len() == n,
            all == lambdas_view(ls@),
            rest@.len() == n - i,
            forall|k: int| 0 <= k < n - i ==> (#[trigger] rest@[k])@ == all[i + k],
            assignment_views(assignments@) == assignments_of(all.take(i as int)),
            statement_views(statements@) == statements_of(all.take(i as int)),
        decreases n - i,
    {
        let ghost before = rest@;
        let item = rest.remove(0);
        assert forall|k: int| 0 <= k < n - i - 1 implies (#[trigger] rest@[k])@ == all[i + 1 + k] by {
            assert(rest@[k] == before[k + 1]);
        }
        assert(item@ == all[i as int]);
        assert(all.take(i + 1).drop_last() =~= all.take(i as int));
        assert(all.take(i + 1).last() == all[i as int]);
        let ghost oa = assignments@;
        let ghost os = statements@;
        match item.kind {
            LambdaKind::Assignment(a) => {
                assignments.push(a);
                assert(assignment_views(assignments@) =~= assignment_views(oa).push((a.ident@, a.body@)));
                assert(statement_views(statements@) =~= statement_views(os));
            },
            LambdaKind::Statement(st) => {
                statements.push(st);
                assert(statement_views(statements@) =~= statement_views(os).push(st.body@));
                assert(assignment_views(assignments@) =~= assignment_views(oa));
            },
        }
        i = i + 1;
    }
    assert(all.take(n as int) =~= all);
    Unzipped { assignments, statements }
}

/// Splitting a program's results into assignments and statements.
pub trait UnzipExpressions {
    fn unzip_expressions(self) -> Result<Unzipped, ParsingError>;
}

impl UnzipExpressions for Vec<Result<Lambda, ParsingError>> {
    /// The assignments and statements, each in order, or the first error.
    fn unzip_expressions(self) -> (r: Result<Unzipped, ParsingError>)
        ensures
            match r {
                Ok(u) => collect_results(results_view(self@)) matches Ok(ls) && assignment_views(
                    u.assignments@,
                ) == assignments_of(ls) && statement_views(u.statements@) == statements_of(ls),
                Err(e) => collect_results(results_view(self@)) == Err::<Seq<LambdaV>, ErrV>(e@),
            },
    {
        match self.unwrap_expressions() {
            Ok(ls) => Ok(partition_lambdas(ls)),
            Err(e) => Err(e),
        }
    }
}

/// The bindings that the assignments among `ls` make, a later assignment
/// of a name replacing an earlier one.
pub open spec fn assignment_bindings(ls: Seq<LambdaV>) -> Map<(Seq<char>, Option<Seq<char>>), NodeV>
    decreases ls.len(),
{
    if ls.len() == 0 {
        Map::empty()
    } else {
        let rest = assignment_bindings(ls.drop_last());
        match ls.last() {
            LambdaV::Assignment(i, b) => rest.insert(var_key(i), b),
            LambdaV::Statement(_) => rest,
        }
    }
}

impl Lambda {
    /// The bindings made by the assignments among `expressions`; `None`
    /// when there is no assignment.
    pub fn generate_assignment_map(expressions: &Vec<Lambda>) -> (r: Option<Assignments>)
        ensures
            match r {
                Some(m) => m.as_map() == assignment_bindings(lambdas_view(expressions@)) && m.as_map()
                    != Map::<(Seq<char>, Option<Seq<char>>), NodeV>::empty(),
                None => assignment_bindings(lambdas_view(expressions@)) == Map::<
                    (Seq<char>, Option<Seq<char>>),
                    NodeV,
                >::empty(),
            },
    {
        let ghost all = lambdas_view(expressions@);
        let mut map = Assignments::new();
        let mut i: usize = 0;
        assert(all.take(0) =~= Seq::<LambdaV>::empty());
        while i < expressions.len()
            invariant
                0 <= i <= expressions@.len(),
                all == lambdas_view(expressions@),
                map.as_map() == assignment_bindings(all.take(i as int)),
            decreases expressions@.len() - i,
        {
            assert(all.take(i + 1).drop_last() =~= all.take(i as int));
            assert(all.take(i + 1).last() == expressions@[i as int]@);
            match &expressions[i].kind {
                LambdaKind::Assignment(a) => {
                    map.insert(a.ident.copy(), crate::types::node::copy_node(&a.body));
                },
                LambdaKind::Statement(_) => {},
            }
            i = i + 1;
        }
        assert(all.take(i as int) =~= all);
        if map.is_empty() {
            return None;
        }
        Some(map)
    }

    /// Whether this expression is an assignment.
    pub fn is_assignment(&self) -> (r: bool)
        ensures
            r == self@ is Assignment,
    {
        matches!(self.kind, LambdaKind::Assignment(_))
    }

    /// The text of this expression (`ident := body`, or the body).
    pub fn to_string(&self) -> (r: String)
        ensures
            r@ == lambda_text(self@),
    {
        self.kind.to_string()
    }

    /// A copy of this expression.
    pub fn copy(&self) -> (r: Lambda)
        ensures
            r@ == self@,
    {
        match &self.kind {
            LambdaKind::Assignment(a) => Lambda {
                kind: LambdaKind::Assignment(LambdaAssignment { ident: a.ident.copy(), body: copy_node(&a.body) }),
            },
            LambdaKind::Statement(st) => Lambda {
                kind: LambdaKind::Statement(LambdaStatement { body: copy_node(&st.body) }),
            },
        }
    }
}

/// Copies of the expressions `ls`.
pub fn copy_lambdas(ls: &Vec<Lambda>) -> (r: Vec<Lambda>)
    ensures
        lambdas_view(r@) == lambdas_view(ls@),
{
    let mut r: Vec<Lambda> = Vec::new();
    let mut i: usize = 0;
    while i < ls.len()
        invariant
            0 <= i <= ls@.len(),
            lambdas_view(r@) == lambdas_view(ls@).take(i as int),
        decreases ls@.len() - i,
    {
        let ghost before = lambdas_view(r@);
        r.push(ls[i].copy());
        assert(lambdas_view(r@) =~= before.push(ls@[i as int]@));
        assert(lambdas_view(ls@).take(i + 1) =~= lambdas_view(ls@).take(i as int).push(ls@[i as int]@));
        i = i + 1;
    }
    assert(lambdas_view(ls@).take(i as int) =~= lambdas_view(ls@));
    r
}

impl LambdaKind {
    pub fn is_assignment(&self) -> (r: bool)
        ensures
            r == self@ is Assignment,
    {
        matches!(self, LambdaKind::Assignment(_))
    }

    pub fn is_statement(&self) -> (r: bool)
        ensures
            r == self@ is Statement,
    {
        matches!(self, LambdaKind::Statement(_))
    }

    /// The text of this expression (`ident := body`, or the body).
    pub fn to_string(&self) -> (r: String)
        ensures
            r@ == lambda_text(self@),
    {
        let mut s = String::new();
        match self {
            LambdaKind::Assignment(a) => {
                crate::types::node::write_variable(&a.ident, &mut s);
                crate::text::append_str(&mut s, " := ");
                crate::types::node::write_node(&a.body, &mut s);
            },
            LambdaKind::Statement(st) => {
                crate::types::node::write_node(&st.body, &mut s);
            },
        }
        s
    }
}

} // verus!
