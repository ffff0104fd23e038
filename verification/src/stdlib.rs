//! Church numerals written as lambda expressions.

use vstd::prelude::*;

use crate::parsing::{collect_results, results_view, spec_parse_program, statement_views, statements_of, Lambda, UnzipExpressions};
use crate::text::append_str;
use crate::types::node::{copy_node, Node, NodeV};

verus! {

/// `k` copies of `s` one after the other.
pub open spec fn repeated(s: Seq<char>, k: nat) -> Seq<char>
    decreases k,
{
    if k == 0 {
        Seq::empty()
    } else {
        repeated(s, (k - 1) as nat) + s
    }
}

/// The text of the numeral `number`: `Lf.Lx.`, then `x` inside `number`
/// applications of `f`, each opened with `(f` and closed with `)`.
pub open spec fn lambda_number_text(number: nat) -> Seq<char> {
    if number == 0 {
        "Lf.Lx.x"@
    } else {
        "Lf.Lx."@ + repeated("(f"@, number) + "x"@ + repeated(")"@, number)
    }
}

/// The expression that reading `lambda_number_text(number)` gives, when it
/// reads as a program with a statement.
pub open spec fn lambda_number(number: nat) -> Option<NodeV> {
    match collect_results(spec_parse_program(lambda_number_text(number))) {
        Ok(ls) => if statements_of(ls).len() > 0 {
            Some(statements_of(ls)[0])
        } else {
            None
        },
        Err(_) => None,
    }
}

/// Appends `k` copies of `s` to `out`.
fn append_repeated(out: &mut String, s: &str, k: u32)
    ensures
        final(out)@ == old(out)@ + repeated(s@, k as nat),
{
    let ghost o = out@;
    let mut i: u32 = 0;
    while i < k
        invariant
            0 <= i <= k,
            out@ == o + repeated(s@, i as nat),
        decreases k - i,
    {
        append_str(out, s);
        assert(repeated(s@, (i + 1) as nat) == repeated(s@, i as nat) + s@);
        i = i + 1;
    }
}

/// The numeral `number` as an expression: the text
/// `lambda_number_text(number)` read as a program, and its statement. The
/// text must read as a statement.
pub fn generate_lambda_number(number: u32) -> (r: Node)
    requires
        lambda_number(number as nat) is Some,
        4 * (3 * number + 7) + 8 <= usize::MAX,
    ensures
        lambda_number(number as nat) == Some(r@),
{
    let mut n = crate::text::string_of("Lf.Lx.");
    if number == 0 {
        crate::text::push_char(&mut n, 'x');
    } else {
        append_repeated(&mut n, "(f", number);
        crate::text::push_char(&mut n, 'x');
        append_repeated(&mut n, ")", number);
    }
    proof {
        reveal_strlit("Lf.Lx.");
        reveal_strlit("Lf.Lx.x");
        reveal_strlit("(f");
        reveal_strlit(")");
        reveal_strlit("x");
        lemma_repeated_len("(f"@, number as nat);
        lemma_repeated_len(")"@, number as nat);
    }
    assert(n@ =~= lambda_number_text(number as nat));
    let parsed = Lambda::parse(n.as_str());
    assert(results_view(parsed@) =~= spec_parse_program(n@));
    match parsed.unzip_expressions() {
        Ok(u) => {
            assert(statement_views(u.statements@)[0] == u.statements@[0].body@);
            copy_node(&u.statements[0].body)
        },
        Err(_) => {
            proof {
                assert(false);
            }
            Node::Variable(crate::types::VariableNode::new(String::new(), None, 0, false))
        },
    }
}

proof fn lemma_repeated_len(s: Seq<char>, k: nat)
    ensures
        repeated(s, k).len() == s.len() * k,
    decreases k,
{
    if k > 0 {
        lemma_repeated_len(s, (k - 1) as nat);
        let j = (k - 1) as nat;
        assert(s.len() * k == s.len() * j + s.len()) by (nonlinear_arith)
            requires
                k == j + 1,
        ;
        assert(repeated(s, k) == repeated(s, j) + s);
    } else {
        assert(s.len() * k == 0) by (nonlinear_arith)
            requires
                k == 0,
        ;
    }
}

} // verus!
