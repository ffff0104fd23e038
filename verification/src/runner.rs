//! Running a whole program file at once: each statement is shown as
//! written, with the assignments made before it put in, and after one
//! reduction step (or, when asked, only after the reduction step).

use vstd::prelude::*;

use crate::assignments::{replace_vars, var_key, Assignments};
use crate::parsing::{
    collect_results, lambdas_view, results_view, spec_parse_program, statements_of, Lambda, LambdaKind, LambdaV,
    UnwrapExpressions,
};
use crate::text::append_str;
use crate::types::node::{copy_node, node_text, write_node, Node, NodeV};
use crate::types::reduce::step;
use crate::types::{ErrV, ParsingError};

verus! {

/// One statement of a program as the run shows it: as written, with the
/// assignments made before it put in, and reduced.
pub struct RunRow {
    pub original: NodeV,
    pub replaced: NodeV,
    pub reduced: NodeV,
}

/// The rows of the statements of `ls`, given the bindings `m` made before
/// them. An assignment adds its binding for the statements after it. A
/// statement whose expression, once the bindings are put in, is an
/// application is reduced by one step; any other statement is shown
/// reduced to itself as written.
pub open spec fn run_rows(ls: Seq<LambdaV>, m: Map<(Seq<char>, Option<Seq<char>>), NodeV>) -> Seq<RunRow>
    decreases ls.len(),
{
    if ls.len() == 0 {
        Seq::empty()
    } else {
        match ls[0] {
            LambdaV::Assignment(i, b) => run_rows(ls.drop_first(), m.insert(var_key(i), b)),
            LambdaV::Statement(b) => {
                let rep = replace_vars(b, m);
                let red = if rep is Application {
                    step(rep)
                } else {
                    b
                };
                seq![RunRow { original: b, replaced: rep, reduced: red }] + run_rows(ls.drop_first(), m)
            },
        }
    }
}

/// The texts of `v`, one per line (joined with `\n`).
pub open spec fn joined(v: Seq<NodeV>) -> Seq<char>
    decreases v.len(),
{
    if v.len() == 0 {
        Seq::empty()
    } else if v.len() == 1 {
        node_text(v[0])
    } else {
        joined(v.drop_last()) + "\n"@ + node_text(v.last())
    }
}

/// A titled section of the output.
pub open spec fn section(title: Seq<char>, v: Seq<NodeV>) -> Seq<char> {
    "// ==================== "@ + title + " ===================="@ + "\n"@ + joined(v) + "\n\n"@
}

/// What the run of a program with statements `rows` writes.
pub open spec fn run_text(rows: Seq<RunRow>) -> Seq<char> {
    section("Original"@, rows.map_values(|r: RunRow| r.original)) + section(
        "Variable Replacements"@,
        rows.map_values(|r: RunRow| r.replaced),
    ) + section("Reductions"@, rows.map_values(|r: RunRow| r.reduced))
}

/// What the run of a program with statements `rows` writes when only the
/// end results of the reductions are asked for.
pub open spec fn reductions_text(rows: Seq<RunRow>) -> Seq<char> {
    section("Reductions"@, rows.map_values(|r: RunRow| r.reduced))
}

/// What running the program text `content` gives: the run's text (all
/// three sections, or the reductions alone when `only_reductions` is set),
/// or the first parsing error.
pub open spec fn spec_run(content: Seq<char>, only_reductions: bool) -> Result<Seq<char>, ErrV> {
    match collect_results(spec_parse_program(content)) {
        Err(e) => Err(e),
        Ok(ls) => Ok(
            if only_reductions {
                reductions_text(run_rows(ls, Map::empty()))
            } else {
                run_text(run_rows(ls, Map::empty()))
            },
        ),
    }
}

/// A run shows one row per statement, whatever the bindings.
pub proof fn lemma_run_rows_len(ls: Seq<LambdaV>, m: Map<(Seq<char>, Option<Seq<char>>), NodeV>)
    ensures
        run_rows(ls, m).len() == statements_of(ls).len(),
    decreases ls.len(),
{
    if ls.len() > 0 {
        match ls[0] {
            LambdaV::Assignment(i, b) => {
                lemma_run_rows_len(ls.drop_first(), m.insert(var_key(i), b));
            },
            LambdaV::Statement(b) => {
                lemma_run_rows_len(ls.drop_first(), m);
            },
        }
        lemma_statements_front(ls);
    }
}

/// `statements_of` read from the front.
proof fn lemma_statements_front(ls: Seq<LambdaV>)
    requires
        ls.len() > 0,
    ensures
        statements_of(ls) == (match ls[0] {
            LambdaV::Assignment(_, _) => statements_of(ls.drop_first()),
            LambdaV::Statement(b) => seq![b] + statements_of(ls.drop_first()),
        }),
    decreases ls.len(),
{
    if ls.len() > 1 {
        lemma_statements_front(ls.drop_last());
        assert(ls.drop_last().drop_first() =~= ls.drop_first().drop_last());
        assert(ls.drop_first().last() == ls.last());
        match ls[0] {
            LambdaV::Assignment(_, _) => {},
            LambdaV::Statement(b) => {
                match ls.last() {
                    LambdaV::Assignment(_, _) => {},
                    LambdaV::Statement(c) => {
                        assert(seq![b] + statements_of(ls.drop_first().drop_last()).push(c) =~= (seq![b]
                            + statements_of(ls.drop_first().drop_last())).push(c));
                    },
                }
            },
        }
    } else {
        assert(ls.drop_first() =~= Seq::<LambdaV>::empty());
        assert(ls.drop_last() =~= Seq::<LambdaV>::empty());
    }
}

proof fn lemma_run_rows_step(ls: Seq<LambdaV>, i: int, m: Map<(Seq<char>, Option<Seq<char>>), NodeV>)
    requires
        0 <= i < ls.len(),
    ensures
        run_rows(ls.skip(i), m) == (match ls[i] {
            LambdaV::Assignment(x, b) => run_rows(ls.skip(i + 1), m.insert(var_key(x), b)),
            LambdaV::Statement(b) => {
                let rep = replace_vars(b, m);
                let red = if rep is Application {
                    step(rep)
                } else {
                    b
                };
                seq![RunRow { original: b, replaced: rep, reduced: red }] + run_rows(ls.skip(i + 1), m)
            },
        }),
{
    assert(ls.skip(i).drop_first() =~= ls.skip(i + 1));
    assert(ls.skip(i)[0] == ls[i]);
}

/// Appends the texts of `v`, one per line, to `out`.
fn write_joined(v: &Vec<Node>, out: &mut String)
    ensures
        final(out)@ == old(out)@ + joined(v@.map_values(|n: Node| n@)),
{
    let ghost vs = v@.map_values(|n: Node| n@);
    let ghost o = out@;
    let mut i: usize = 0;
    assert(vs.take(0) =~= Seq::<NodeV>::empty());
    while i < v.len()
        invariant
            0 <= i <= v@.len(),
            vs == v@.map_values(|n: Node| n@),
            out@ == o + joined(vs.take(i as int)),
        decreases v@.len() - i,
    {
        if i > 0 {
            append_str(out, "\n");
        }
        write_node(&v[i], out);
        assert(vs.take(i + 1).drop_last() =~= vs.take(i as int));
        assert(vs.take(i + 1).last() == v@[i as int]@);
        assert(out@ =~= o + joined(vs.take(i + 1)));
        i = i + 1;
    }
    assert(vs.take(i as int) =~= vs);
}

/// Appends a titled section to `out`.
fn write_section(title: &str, v: &Vec<Node>, out: &mut String)
    ensures
        final(out)@ == old(out)@ + section(title@, v@.map_values(|n: Node| n@)),
{
    let ghost o = out@;
    append_str(out, "// ==================== ");
    append_str(out, title);
    append_str(out, " ====================");
    append_str(out, "\n");
    write_joined(v, out);
    append_str(out, "\n\n");
    assert(out@ =~= o + section(title@, v@.map_values(|n: Node| n@)));
}

/// Runs the program text `content` (see `spec_run`): parses it, then for
/// each statement puts in the assignments made before it and reduces it
/// by one step. The result is the text of three sections: the statements
/// as written, with the assignments put in, and reduced; with
/// `only_show_reductions`, the last section alone.
pub fn run_program(content: &str, only_show_reductions: bool) -> (r: Result<String, ParsingError>)
    requires
        4 * content@.len() + 8 <= usize::MAX,
    ensures
        match r {
            Ok(t) => spec_run(content@, only_show_reductions) == Ok::<Seq<char>, ErrV>(t@),
            Err(e) => spec_run(content@, only_show_reductions) == Err::<Seq<char>, ErrV>(e@),
        },
{
    let parsed = Lambda::parse(content);
    assert(results_view(parsed@) =~= spec_parse_program(content@));
    let expressions = match parsed.unwrap_expressions() {
        Ok(ls) => ls,
        Err(e) => {
            return Err(e);
        },
    };
    let ghost ls = lambdas_view(expressions@);
    let mut assignments = Assignments::new();
    let mut originals: Vec<Node> = Vec::new();
    let mut replaced: Vec<Node> = Vec::new();
    let mut reduced: Vec<Node> = Vec::new();
    let ghost mut rows: Seq<RunRow> = Seq::empty();
    let mut i: usize = 0;
    assert(ls.skip(0) =~= ls);
    while i < expressions.len()
        invariant
            0 <= i <= expressions@.len(),
            ls == lambdas_view(expressions@),
            run_rows(ls, Map::empty()) == rows + run_rows(ls.skip(i as int), assignments.as_map()),
            originals@.map_values(|n: Node| n@) == rows.map_values(|r: RunRow| r.original),
            replaced@.map_values(|n: Node| n@) == rows.map_values(|r: RunRow| r.replaced),
            reduced@.map_values(|n: Node| n@) == rows.map_values(|r: RunRow| r.reduced),
        decreases expressions@.len() - i,
    {
        proof {
            lemma_run_rows_step(ls, i as int, assignments.as_map());
        }
        assert(ls[i as int] == expressions@[i as int]@);
        match &expressions[i].kind {
            LambdaKind::Assignment(a) => {
                assignments.insert(a.ident.copy(), copy_node(&a.body));
            },
            LambdaKind::Statement(s) => {
                let original = copy_node(&s.body);
                let rep = copy_node(&s.body).replace_assignments(&assignments);
                let red = match copy_node(&rep) {
                    Node::Application(application) => match application.reduce_self() {
                        Ok(n) => n,
                        Err(_) => {
                            proof {
                                assert(false);
                            }
                            copy_node(&original)
                        },
                    },
                    _ => copy_node(&original),
                };
                let ghost row = RunRow { original: original@, replaced: rep@, reduced: red@ };
                let ghost before = rows;
                proof {
                    rows = rows.push(row);
                }
                assert(before + (seq![row] + run_rows(ls.skip(i + 1), assignments.as_map()))
                    =~= rows + run_rows(ls.skip(i + 1), assignments.as_map()));
                let ghost o1 = originals@;
                let ghost o2 = replaced@;
                let ghost o3 = reduced@;
                originals.push(original);
                replaced.push(rep);
                reduced.push(red);
                assert(originals@.map_values(|n: Node| n@) =~= o1.map_values(|n: Node| n@).push(row.original));
                assert(rows.map_values(|r: RunRow| r.original) =~= before.map_values(|r: RunRow| r.original).push(row.original));
                assert(replaced@.map_values(|n: Node| n@) =~= o2.map_values(|n: Node| n@).push(row.replaced));
                assert(rows.map_values(|r: RunRow| r.replaced) =~= before.map_values(|r: RunRow| r.replaced).push(row.replaced));
                assert(reduced@.map_values(|n: Node| n@) =~= o3.map_values(|n: Node| n@).push(row.reduced));
                assert(rows.map_values(|r: RunRow| r.reduced) =~= before.map_values(|r: RunRow| r.reduced).push(row.reduced));
            },
        }
        i = i + 1;
    }
    assert(ls.skip(i as int) =~= Seq::<LambdaV>::empty());
    assert(rows + Seq::<RunRow>::empty() =~= rows);
    let mut out = String::new();
    if only_show_reductions {
        write_section("Reductions", &reduced, &mut out);
        assert(out@ =~= reductions_text(rows));
    } else {
        write_section("Original", &originals, &mut out);
        write_section("Variable Replacements", &replaced, &mut out);
        write_section("Reductions", &reduced, &mut out);
        assert(out@ =~= run_text(rows));
    }
    Ok(out)
}

} // verus!
