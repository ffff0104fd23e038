//! Running a program: statements have the program's assignments put in,
//! then are reduced step by step until nothing changes.

use vstd::prelude::*;

use crate::assignments::{replace_vars, Assignments};
use crate::opts::{
    default_opt_lookup, default_opt_name, default_opts_view, json_bool, lemma_json_bool_roundtrip, opt_index,
    CreateDefaultOpts, DefaultOpts, GetDefaultOpt, OptEntryV, Opts,
};
use crate::parsing::{
    assignment_bindings, lambda_text, lambdas_view, statements_of, Lambda, LambdaKind, LambdaStatement, LambdaV,
};
use crate::text::{append_str, string_of};
use crate::types::node::{copy_node, node_same, node_text, nodes_equal, write_node, Node, NodeV};
use crate::types::reduce::step;
use crate::types::{opt_string_view, CreatedAt, ErrV, ParsingError, ReductionError, Span};

verus! {

/// What went wrong while running a program.
#[derive(Debug, Clone)]
pub struct InterpretingError {
    pub(crate) src: String,
    pub(crate) msg: Option<String>,
    pub(crate) error_span: Span,
    pub(crate) created_at: Option<CreatedAt>,
    pub(crate) help: Option<String>,
}

/// The content of an `InterpretingError`.
pub struct InterpretingErrorV {
    pub err: ErrV,
    pub help: Option<Seq<char>>,
}

impl View for InterpretingError {
    type V = InterpretingErrorV;

    open(crate) spec fn view(&self) -> InterpretingErrorV {
        InterpretingErrorV {
            err: ErrV {
                src: self.src@,
                msg: opt_string_view(self.msg),
                span: self.error_span,
                created_at: self.created_at,
            },
            help: opt_string_view(self.help),
        }
    }
}

impl InterpretingError {
    pub fn new(
        src: &str,
        msg: Option<&str>,
        error_span: Span,
        created_at: Option<CreatedAt>,
        help: Option<String>,
    ) -> (r: Self)
        ensures
            r@.err.src == src@,
            r@.err.msg == (match msg {
                Some(x) => Some(x@),
                None => None::<Seq<char>>,
            }),
            r@.err.span == error_span,
            r@.err.created_at == created_at,
            r@.help == opt_string_view(help),
    {
        InterpretingError {
            src: string_of(src),
            msg: crate::types::option_string_of(msg),
            error_span,
            created_at,
            help,
        }
    }

    pub fn src(&self) -> (r: &String)
        ensures
            r@ == self@.err.src,
    {
        &self.src
    }

    pub fn msg(&self) -> (r: &Option<String>)
        ensures
            opt_string_view(*r) == self@.err.msg,
    {
        &self.msg
    }

    pub fn error_span(&self) -> (r: Span)
        ensures
            r == self@.err.span,
    {
        self.error_span
    }

    pub fn created_at(&self) -> (r: &Option<CreatedAt>)
        ensures
            *r == self@.err.created_at,
    {
        &self.created_at
    }

    pub fn help(&self) -> (r: &Option<String>)
        ensures
            opt_string_view(*r) == self@.help,
    {
        &self.help
    }

    /// The text this error shows (`InterpretingError`).
    pub fn to_string(&self) -> (r: String)
        ensures
            r@ == "InterpretingError"@,
    {
        string_of("InterpretingError")
    }

    /// The error that a reduction error becomes: the same source, message,
    /// span and origin, and no help.
    pub fn from_reduction_error(value: ReductionError) -> (r: Self)
        ensures
            r@ == (InterpretingErrorV { err: value@, help: None }),
    {
        InterpretingError {
            src: value.src,
            msg: value.msg,
            error_span: value.error_span,
            created_at: value.created_at,
            help: None,
        }
    }

    /// The error that a parsing error becomes: the same source, message,
    /// span and origin, and no help.
    pub fn from_parsing_error(value: ParsingError) -> (r: Self)
        ensures
            r@ == (InterpretingErrorV { err: value@, help: None }),
    {
        InterpretingError {
            src: value.src,
            msg: value.msg,
            error_span: value.error_span,
            created_at: value.created_at,
            help: None,
        }
    }
}

/// The frames of reducing `b`: `b`, then each reduction step while it
/// changes the expression, at most `fuel` steps.
pub open spec fn reduction_frames(b: NodeV, fuel: nat) -> Seq<NodeV>
    decreases fuel,
{
    if fuel == 0 || node_same(step(b), b) {
        seq![b]
    } else {
        seq![b] + reduction_frames(step(b), (fuel - 1) as nat)
    }
}

pub open spec fn nodes_view(v: Seq<Node>) -> Seq<NodeV> {
    v.map_values(|n: Node| n@)
}

/// The frames of reducing `body` (see `reduction_frames`).
pub fn reduce_frames(body: Node, max_reductions: usize) -> (r: Vec<Node>)
    ensures
        nodes_view(r@) == reduction_frames(body@, max_reductions as nat),
        r@.len() >= 1,
{
    let ghost b0 = body@;
    let mut frames: Vec<Node> = Vec::new();
    frames.push(copy_node(&body));
    let mut cur = body;
    let mut k: usize = 0;
    while k < max_reductions
        invariant
            0 <= k <= max_reductions,
            b0 == body@,
            frames@.len() >= 1,
            frames@.last()@ == cur@,
            reduction_frames(b0, max_reductions as nat) == nodes_view(frames@).drop_last() + reduction_frames(
                cur@,
                (max_reductions - k) as nat,
            ),
        decreases max_reductions - k,
    {
        let next = crate::types::reduce::step_node_pub(copy_node(&cur));
        let last = frames.len() - 1;
        if nodes_equal(&next, &frames[last]) {
            proof {
                crate::types::node::lemma_node_same_symmetric(next@, cur@);
            }
            assert(reduction_frames(cur@, (max_reductions - k) as nat) == seq![cur@]);
            assert(nodes_view(frames@) =~= nodes_view(frames@).drop_last() + seq![cur@]);
            return frames;
        }
        proof {
            crate::types::node::lemma_node_same_symmetric(cur@, next@);
        }
        let ghost before = frames@;
        frames.push(copy_node(&next));
        assert(nodes_view(frames@).drop_last() =~= nodes_view(before));
        assert(nodes_view(before) =~= nodes_view(before).drop_last() + seq![cur@]);
        cur = next;
        k = k + 1;
    }
    assert(reduction_frames(cur@, 0) == seq![cur@]);
    assert(nodes_view(frames@) =~= nodes_view(frames@).drop_last() + seq![cur@]);
    frames
}


/// The text written for the frames of one statement.
pub open spec fn frames_text(f: Seq<NodeV>) -> Seq<char> {
    if f.len() == 1 {
        "(Expression Reduction)\n"@ + node_text(f[0]) + " => "@ + node_text(f[0]) + "\n"@
    } else if f.len() == 2 {
        "(Expression Reduction) \t "@ + node_text(f[0]) + " => "@ + node_text(f[1]) + "\n"@
    } else {
        "(Expression Reduction)\n\t"@ + node_text(f[0]) + "\n"@ + later_frames_text(f.drop_first())
            + "\n"@
    }
}

/// One line `\t=> frame` for each frame of `f`.
pub open spec fn later_frames_text(f: Seq<NodeV>) -> Seq<char>
    decreases f.len(),
{
    if f.len() == 0 {
        Seq::empty()
    } else {
        later_frames_text(f.drop_last()) + "\t=> "@ + node_text(f.last()) + "\n"@
    }
}

/// The value of option `o` in `s` as a boolean, if it is present and one.
pub open spec fn opt_flag(s: Seq<OptEntryV>, o: DefaultOpts) -> Option<bool> {
    match default_opt_lookup(s, o) {
        Some(e) => json_bool(e.current),
        None => None,
    }
}

/// The options `interpret` reads: those given, or the defaults.
pub open spec fn effective_opts(opts: Option<&Opts>) -> Seq<OptEntryV> {
    match opts {
        Some(o) => o@,
        None => default_opts_view(),
    }
}

/// A statement's expression once the program's bindings are put in.
pub open spec fn statement_body(b: NodeV, m: Map<(Seq<char>, Option<Seq<char>>), NodeV>) -> NodeV {
    if m == Map::<(Seq<char>, Option<Seq<char>>), NodeV>::empty() {
        b
    } else {
        replace_vars(b, m)
    }
}

/// The text written and the frames made for one statement.
pub open spec fn statement_run(
    b: NodeV,
    m: Map<(Seq<char>, Option<Seq<char>>), NodeV>,
    capture: bool,
    fuel: nat,
) -> (Seq<char>, Seq<NodeV>) {
    let body = statement_body(b, m);
    let frames = reduction_frames(body, fuel);
    let sub = if capture {
        "(Variable Substitutions) "@ + node_text(b) + " => "@ + node_text(body) + "\n"@
    } else {
        Seq::empty()
    };
    (sub + frames_text(frames), frames)
}

/// What running one line `l` writes, and the frames it adds (one list for
/// a statement, none for an assignment).
pub open spec fn lambda_run(
    l: LambdaV,
    m: Map<(Seq<char>, Option<Seq<char>>), NodeV>,
    print: bool,
    capture: bool,
    fuel: nat,
) -> (Seq<char>, Seq<Seq<NodeV>>) {
    match l {
        LambdaV::Assignment(_, _) => (
            if print {
                "(Variable Assignment) "@ + lambda_text(l) + "\n\n"@
            } else {
                Seq::empty()
            },
            Seq::empty(),
        ),
        LambdaV::Statement(b) => {
            let (t, f) = statement_run(b, m, capture, fuel);
            (t, seq![f])
        },
    }
}

/// What running the program `ls` writes, and the frames of each statement.
pub open spec fn program_run(
    ls: Seq<LambdaV>,
    m: Map<(Seq<char>, Option<Seq<char>>), NodeV>,
    print: bool,
    capture: bool,
    fuel: nat,
) -> (Seq<char>, Seq<Seq<NodeV>>)
    decreases ls.len(),
{
    if ls.len() == 0 {
        (Seq::empty(), Seq::empty())
    } else {
        let (text, frames) = program_run(ls.drop_last(), m, print, capture, fuel);
        let (t, f) = lambda_run(ls.last(), m, print, capture, fuel);
        (text + t, frames + f)
    }
}

proof fn lemma_program_run_step(
    ls: Seq<LambdaV>,
    i: int,
    m: Map<(Seq<char>, Option<Seq<char>>), NodeV>,
    print: bool,
    capture: bool,
    fuel: nat,
)
    requires
        0 <= i < ls.len(),
    ensures
        program_run(ls.take(i + 1), m, print, capture, fuel).0 == program_run(ls.take(i), m, print, capture, fuel).0
            + lambda_run(ls[i], m, print, capture, fuel).0,
        program_run(ls.take(i + 1), m, print, capture, fuel).1 == program_run(ls.take(i), m, print, capture, fuel).1
            + lambda_run(ls[i], m, print, capture, fuel).1,
{
    assert(ls.take(i + 1).drop_last() =~= ls.take(i));
    assert(ls.take(i + 1).last() == ls[i]);
}

pub open spec fn frame_lists_view(v: Seq<Vec<Node>>) -> Seq<Seq<NodeV>> {
    v.map_values(|f: Vec<Node>| nodes_view(f@))
}

pub open spec fn has_assignment(ls: Seq<LambdaV>) -> bool {
    exists|i: int| 0 <= i < ls.len() && ls[i] is Assignment
}

pub open spec fn has_statement(ls: Seq<LambdaV>) -> bool {
    exists|i: int| 0 <= i < ls.len() && ls[i] is Statement
}

/// Whether `interpret` can read the options it needs: the printing option
/// where there is an assignment, the substitution option where there is a
/// statement, each present and holding a boolean.
pub open spec fn interpret_opts_ok(ls: Seq<LambdaV>, o: Seq<OptEntryV>) -> bool {
    &&& has_assignment(ls) ==> opt_flag(o, DefaultOpts::ShouldPrintEveryLine) is Some
    &&& has_statement(ls) ==> opt_flag(o, DefaultOpts::ShouldCaptureAllChanges) is Some
}

/// Appends the text of the frames `f` to `out`.
fn write_frames(f: &Vec<Node>, out: &mut String)
    requires
        f@.len() >= 1,
    ensures
        final(out)@ == old(out)@ + frames_text(nodes_view(f@)),
{
    let ghost fv = nodes_view(f@);
    let ghost o = out@;
    if f.len() == 1 {
        append_str(out, "(Expression Reduction)\n");
        write_node(&f[0], out);
        append_str(out, " => ");
        write_node(&f[0], out);
        append_str(out, "\n");
        assert(out@ =~= o + frames_text(fv));
    } else if f.len() == 2 {
        append_str(out, "(Expression Reduction) \t ");
        write_node(&f[0], out);
        append_str(out, " => ");
        write_node(&f[1], out);
        append_str(out, "\n");
        assert(out@ =~= o + frames_text(fv));
    } else {
        append_str(out, "(Expression Reduction)\n\t");
        write_node(&f[0], out);
        append_str(out, "\n");
        let ghost o2 = out@;
        let mut i: usize = 1;
        assert(fv.drop_first().take(0) =~= Seq::<NodeV>::empty());
        while i < f.len()
            invariant
                1 <= i <= f@.len(),
                fv == nodes_view(f@),
                out@ == o2 + later_frames_text(fv.drop_first().take(i - 1)),
            decreases f@.len() - i,
        {
            append_str(out, "\t=> ");
            write_node(&f[i], out);
            append_str(out, "\n");
            assert(fv.drop_first().take(i as int).drop_last() =~= fv.drop_first().take(i - 1));
            assert(fv.drop_first().take(i as int).last() == f@[i as int]@);
            i = i + 1;
        }
        assert(fv.drop_first().take(f@.len() - 1) =~= fv.drop_first());
        append_str(out, "\n");
        assert(out@ =~= o + frames_text(fv));
    }
}

/// The boolean value of option `o`; it must be present and hold one.
fn read_flag(opts: &Opts, o: DefaultOpts) -> (r: bool)
    requires
        opt_flag(opts@, o) is Some,
    ensures
        opt_flag(opts@, o) == Some(r),
{
    let entry = opts.get_default_opt(&o);
    match entry.get_current_as() {
        Ok(b) => b,
        Err(_) => {
            proof {
                assert(false);
            }
            false
        },
    }
}

/// The bindings a table holds, or none.
pub open spec fn table_map(a: Option<Assignments>) -> Map<(Seq<char>, Option<Seq<char>>), NodeV> {
    match a {
        Some(t) => t.as_map(),
        None => Map::<(Seq<char>, Option<Seq<char>>), NodeV>::empty(),
    }
}

/// Runs one statement: puts the bindings in, announces that when `capture`
/// is set, then writes the frames of its reduction and returns them.
fn run_statement(
    body: &Node,
    assignments: &Option<Assignments>,
    capture: bool,
    max_reductions: usize,
    out: &mut String,
) -> (frames: Vec<Node>)
    requires
        assignments is Some ==> table_map(*assignments) != Map::<(Seq<char>, Option<Seq<char>>), NodeV>::empty(),
    ensures
        nodes_view(frames@) == statement_run(body@, table_map(*assignments), capture, max_reductions as nat).1,
        final(out)@ == old(out)@ + statement_run(body@, table_map(*assignments), capture, max_reductions as nat).0,
{
    let ghost before = out@;
    let original = copy_node(body);
    let replaced = match assignments {
        Some(a) => copy_node(body).replace_assignments(a),
        None => copy_node(body),
    };
    assert(replaced@ == statement_body(body@, table_map(*assignments)));
    let ghost sub_text: Seq<char> = if capture {
        "(Variable Substitutions) "@ + node_text(original@) + " => "@ + node_text(replaced@) + "\n"@
    } else {
        Seq::empty()
    };
    if capture {
        append_str(out, "(Variable Substitutions) ");
        write_node(&original, out);
        append_str(out, " => ");
        write_node(&replaced, out);
        append_str(out, "\n");
    }
    assert(out@ =~= before + sub_text);
    let frames = reduce_frames(replaced, max_reductions);
    write_frames(&frames, out);
    assert(out@ =~= before + (sub_text + frames_text(nodes_view(frames@))));
    frames
}

/// Runs one line of a program: announces an assignment when the printing
/// option is on; runs a statement and returns its frames.
fn run_lambda(
    l: &Lambda,
    assignments: &Option<Assignments>,
    o: &Opts,
    max_reductions: usize,
    out: &mut String,
) -> (r: Option<Vec<Node>>)
    requires
        assignments is Some ==> table_map(*assignments) != Map::<(Seq<char>, Option<Seq<char>>), NodeV>::empty(),
        l@ is Assignment ==> opt_flag(o@, DefaultOpts::ShouldPrintEveryLine) is Some,
        l@ is Statement ==> opt_flag(o@, DefaultOpts::ShouldCaptureAllChanges) is Some,
    ensures
        ({
            let run = lambda_run(
                l@,
                table_map(*assignments),
                opt_flag(o@, DefaultOpts::ShouldPrintEveryLine) == Some(true),
                opt_flag(o@, DefaultOpts::ShouldCaptureAllChanges) == Some(true),
                max_reductions as nat,
            );
            &&& final(out)@ == old(out)@ + run.0
            &&& match r {
                Some(f) => run.1 == seq![nodes_view(f@)],
                None => run.1 == Seq::<Seq<NodeV>>::empty(),
            }
        }),
{
    let ghost before = out@;
    match &l.kind {
        LambdaKind::Assignment(_) => {
            let p = read_flag(o, DefaultOpts::ShouldPrintEveryLine);
            if p {
                append_str(out, "(Variable Assignment) ");
                let t = l.to_string();
                append_str(out, t.as_str());
                append_str(out, "\n\n");
                assert(out@ =~= before + ("(Variable Assignment) "@ + lambda_text(l@) + "\n\n"@));
            } else {
                assert(out@ =~= before + Seq::<char>::empty());
            }
            None
        },
        LambdaKind::Statement(LambdaStatement { body }) => {
            let c = read_flag(o, DefaultOpts::ShouldCaptureAllChanges);
            Some(run_statement(body, assignments, c, max_reductions, out))
        },
    }
}

/// Whether running the line `l` needs an option that does not hold a
/// boolean: the printing option for an assignment, the substitution option
/// for a statement.
pub open spec fn stuck_at(l: LambdaV, o: Seq<OptEntryV>) -> bool {
    ||| l is Assignment && opt_flag(o, DefaultOpts::ShouldPrintEveryLine) is None
    ||| l is Statement && opt_flag(o, DefaultOpts::ShouldCaptureAllChanges) is None
}

/// The position of the first line of `ls` that `stuck_at` holds of, or the
/// number of lines when there is none.
pub open spec fn first_stuck(ls: Seq<LambdaV>, o: Seq<OptEntryV>) -> nat
    decreases ls.len(),
{
    if ls.len() == 0 {
        0
    } else if stuck_at(ls[0], o) {
        0
    } else {
        1 + first_stuck(ls.drop_first(), o)
    }
}

/// The lines before the first stuck one are not stuck; the options are
/// readable for the whole program exactly when no line is stuck.
pub proof fn lemma_first_stuck(ls: Seq<LambdaV>, o: Seq<OptEntryV>)
    ensures
        first_stuck(ls, o) <= ls.len(),
        forall|i: int| 0 <= i < first_stuck(ls, o) ==> !stuck_at(#[trigger] ls[i], o),
        first_stuck(ls, o) < ls.len() ==> stuck_at(ls[first_stuck(ls, o) as int], o),
        (first_stuck(ls, o) == ls.len()) == interpret_opts_ok(ls, o),
    decreases ls.len(),
{
    if ls.len() > 0 {
        lemma_first_stuck(ls.drop_first(), o);
        assert forall|i: int| 0 <= i < first_stuck(ls, o) implies !stuck_at(#[trigger] ls[i], o) by {
            if i > 0 {
                assert(ls[i] == ls.drop_first()[i - 1]);
            }
        }
        if first_stuck(ls, o) < ls.len() && first_stuck(ls, o) > 0 {
            assert(ls[first_stuck(ls, o) as int] == ls.drop_first()[first_stuck(ls, o) - 1]);
        }
        if first_stuck(ls, o) == ls.len() {
            if has_assignment(ls) {
                let i = choose|i: int| 0 <= i < ls.len() && ls[i] is Assignment;
                assert(!stuck_at(ls[i], o));
            }
            if has_statement(ls) {
                let i = choose|i: int| 0 <= i < ls.len() && ls[i] is Statement;
                assert(!stuck_at(ls[i], o));
            }
        } else {
            let k = first_stuck(ls, o) as int;
            assert(stuck_at(ls[k], o));
            assert(0 <= k < ls.len());
        }
    }
}

/// The position of the first line that `stuck_at` holds of (see
/// `first_stuck`).
fn first_stuck_index(lambdas: &Vec<Lambda>, o: &Opts) -> (k: usize)
    ensures
        k == first_stuck(lambdas_view(lambdas@), o@),
{
    let ghost ls = lambdas_view(lambdas@);
    let print_ok = read_opt_flag(o, DefaultOpts::ShouldPrintEveryLine).is_some();
    let capture_ok = read_opt_flag(o, DefaultOpts::ShouldCaptureAllChanges).is_some();
    let mut i: usize = 0;
    assert(ls.skip(0) =~= ls);
    while i < lambdas.len()
        invariant
            0 <= i <= lambdas@.len(),
            ls == lambdas_view(lambdas@),
            print_ok == opt_flag(o@, DefaultOpts::ShouldPrintEveryLine) is Some,
            capture_ok == opt_flag(o@, DefaultOpts::ShouldCaptureAllChanges) is Some,
            first_stuck(ls, o@) == i + first_stuck(ls.skip(i as int), o@),
        decreases lambdas@.len() - i,
    {
        assert(ls.skip(i as int)[0] == lambdas@[i as int]@);
        assert(ls.skip(i as int).drop_first() =~= ls.skip(i + 1));
        let stuck = match &lambdas[i].kind {
            LambdaKind::Assignment(_) => !print_ok,
            LambdaKind::Statement(_) => !capture_ok,
        };
        if stuck {
            return i;
        }
        i = i + 1;
    }
    i
}

/// Runs the program `lambdas` (see `interpret`) up to the first line that
/// needs an option not holding a boolean (see `first_stuck`), and writes
/// what those lines do to `out`. Returns the frames when the whole program
/// ran, `None` when it stopped at such a line.
pub fn interpret_partial(lambdas: Vec<Lambda>, out: &mut String, opts: Option<&Opts>, max_reductions: usize) -> (r:
    Option<Vec<Vec<Node>>>)
    ensures
        ({
            let ls = lambdas_view(lambdas@);
            let o = effective_opts(opts);
            let print = opt_flag(o, DefaultOpts::ShouldPrintEveryLine) == Some(true);
            let capture = opt_flag(o, DefaultOpts::ShouldCaptureAllChanges) == Some(true);
            let k = first_stuck(ls, o);
            let done = program_run(ls.take(k as int), assignment_bindings(ls), print, capture, max_reductions as nat);
            &&& final(out)@ == old(out)@ + done.0
            &&& match r {
                Some(frames) => interpret_opts_ok(ls, o) && frame_lists_view(frames@) == done.1,
                None => !interpret_opts_ok(ls, o),
            }
        }),
{
    let defaults = Opts::create_default_options();
    let o: &Opts = match opts {
        Some(x) => x,
        None => &defaults,
    };
    let ghost ls = lambdas_view(lambdas@);
    let ghost m = assignment_bindings(ls);
    let ghost print = opt_flag(o@, DefaultOpts::ShouldPrintEveryLine) == Some(true);
    let ghost capture = opt_flag(o@, DefaultOpts::ShouldCaptureAllChanges) == Some(true);
    proof {
        lemma_first_stuck(ls, o@);
    }
    let k = first_stuck_index(&lambdas, o);
    let assignments = Lambda::generate_assignment_map(&lambdas);
    let ghost start = out@;
    let mut result: Vec<Vec<Node>> = Vec::new();
    let mut i: usize = 0;
    assert(ls.take(0) =~= Seq::<LambdaV>::empty());
    while i < k
        invariant
            0 <= i <= k <= lambdas@.len(),
            k == first_stuck(ls, o@),
            ls == lambdas_view(lambdas@),
            m == assignment_bindings(ls),
            o@ == effective_opts(opts),
            print == (opt_flag(o@, DefaultOpts::ShouldPrintEveryLine) == Some(true)),
            capture == (opt_flag(o@, DefaultOpts::ShouldCaptureAllChanges) == Some(true)),
            forall|j: int| 0 <= j < k ==> !stuck_at(#[trigger] ls[j], o@),
            table_map(assignments) == m,
            assignments is Some ==> m != Map::<(Seq<char>, Option<Seq<char>>), NodeV>::empty(),
            frame_lists_view(result@) == program_run(ls.take(i as int), m, print, capture, max_reductions as nat).1,
            out@ == start + program_run(ls.take(i as int), m, print, capture, max_reductions as nat).0,
        decreases k - i,
    {
        proof {
            lemma_program_run_step(ls, i as int, m, print, capture, max_reductions as nat);
        }
        assert(ls[i as int] == lambdas@[i as int]@);
        assert(!stuck_at(ls[i as int], o@));
        let ghost before_frames = result@;
        let added = run_lambda(&lambdas[i], &assignments, o, max_reductions, out);
        match added {
            Some(frames) => {
                result.push(frames);
                assert(frame_lists_view(result@) =~= frame_lists_view(before_frames) + seq![nodes_view(frames@)]);
            },
            None => {
                assert(frame_lists_view(result@) =~= frame_lists_view(before_frames) + Seq::<Seq<NodeV>>::empty());
            },
        }
        i = i + 1;
    }
    if k == lambdas.len() {
        Some(result)
    } else {
        None
    }
}

/// Runs the program `lambdas`. Each assignment is announced when the
/// printing option is on. Each statement has the program's bindings put
/// in (announced when the substitution option is on), then is reduced step
/// by step, at most `max_reductions` steps, until a step changes nothing;
/// the frames are written to `out` and returned, one list per statement.
/// The options read must hold booleans (see `interpret_partial` for a run
/// that checks).
pub fn interpret(lambdas: Vec<Lambda>, out: &mut String, opts: Option<&Opts>, max_reductions: usize) -> (r:
    Result<Vec<Vec<Node>>, InterpretingError>)
    requires
        interpret_opts_ok(lambdas_view(lambdas@), effective_opts(opts)),
    ensures
        ({
            let ls = lambdas_view(lambdas@);
            let o = effective_opts(opts);
            let run = program_run(
                ls,
                assignment_bindings(ls),
                opt_flag(o, DefaultOpts::ShouldPrintEveryLine) == Some(true),
                opt_flag(o, DefaultOpts::ShouldCaptureAllChanges) == Some(true),
                max_reductions as nat,
            );
            &&& r matches Ok(frames) && frame_lists_view(frames@) == run.1
            &&& final(out)@ == old(out)@ + run.0
            &&& r matches Ok(frames) && frames@.len() == statements_of(ls).len()
            &&& r matches Ok(frames) && forall|k: int|
                0 <= k < frames@.len() ==> #[trigger] is_reduction(
                    nodes_view(frames@[k]@),
                    statement_body(statements_of(ls)[k], assignment_bindings(ls)),
                    max_reductions as nat,
                )
            &&& r matches Ok(frames) && forall|k: int|
                0 <= k < frames@.len() && frames@[k]@.len() <= max_reductions ==> #[trigger] node_same(
                    step(nodes_view(frames@[k]@).last()),
                    nodes_view(frames@[k]@).last(),
                )
        }),
{
    let ghost ls = lambdas_view(lambdas@);
    proof {
        lemma_first_stuck(ls, effective_opts(opts));
        assert(ls.take(ls.len() as int) =~= ls);
        lemma_run_reductions(
            ls,
            assignment_bindings(ls),
            opt_flag(effective_opts(opts), DefaultOpts::ShouldPrintEveryLine) == Some(true),
            opt_flag(effective_opts(opts), DefaultOpts::ShouldCaptureAllChanges) == Some(true),
            max_reductions as nat,
        );
    }
    match interpret_partial(lambdas, out, opts, max_reductions) {
        Some(frames) => {
            assert(frame_lists_view(frames@).len() == frames@.len());
            let ghost m = assignment_bindings(ls);
            let ghost run1 = program_run(
                ls,
                m,
                opt_flag(effective_opts(opts), DefaultOpts::ShouldPrintEveryLine) == Some(true),
                opt_flag(effective_opts(opts), DefaultOpts::ShouldCaptureAllChanges) == Some(true),
                max_reductions as nat,
            ).1;
            assert(frame_lists_view(frames@) == run1);
            assert forall|k: int| 0 <= k < frames@.len() implies #[trigger] is_reduction(
                nodes_view(frames@[k]@),
                statement_body(statements_of(ls)[k], m),
                max_reductions as nat,
            ) by {
                assert(nodes_view(frames@[k]@) == frame_lists_view(frames@)[k]);
                assert(is_reduction(run1[k], statement_body(statements_of(ls)[k], m), max_reductions as nat));
            }
            assert forall|k: int| 0 <= k < frames@.len() && frames@[k]@.len() <= max_reductions implies #[trigger] node_same(
                step(nodes_view(frames@[k]@).last()),
                nodes_view(frames@[k]@).last(),
            ) by {
                assert(is_reduction(nodes_view(frames@[k]@), statement_body(statements_of(ls)[k], m), max_reductions as nat));
                assert(nodes_view(frames@[k]@).len() == frames@[k]@.len());
            }
            Ok(frames)
        },
        None => {
            proof {
                assert(false);
            }
            Ok(Vec::new())
        },
    }
}

/// The value of option `o` in `opts` as a boolean, if it is present and
/// holds one.
pub fn read_opt_flag(opts: &Opts, o: DefaultOpts) -> (r: Option<bool>)
    ensures
        r == opt_flag(opts@, o),
{
    let name = o.to_string();
    match opts.get(name.as_str()) {
        None => None,
        Some(e) => match e.get_current_as() {
            Ok(b) => Some(b),
            Err(_) => None,
        },
    }
}

/// Whether `interpret` can read the options it needs to run `lambdas`
/// (see `interpret_opts_ok`).
pub fn can_interpret(lambdas: &Vec<Lambda>, opts: Option<&Opts>) -> (r: bool)
    ensures
        r == interpret_opts_ok(lambdas_view(lambdas@), effective_opts(opts)),
{
    let defaults = Opts::create_default_options();
    let o: &Opts = match opts {
        Some(x) => x,
        None => &defaults,
    };
    let ghost ls = lambdas_view(lambdas@);
    let mut any_assignment = false;
    let mut any_statement = false;
    let mut i: usize = 0;
    while i < lambdas.len()
        invariant
            0 <= i <= lambdas@.len(),
            ls == lambdas_view(lambdas@),
            any_assignment == exists|j: int| 0 <= j < i && ls[j] is Assignment,
            any_statement == exists|j: int| 0 <= j < i && ls[j] is Statement,
        decreases lambdas@.len() - i,
    {
        assert(ls[i as int] == lambdas@[i as int]@);
        match &lambdas[i].kind {
            LambdaKind::Assignment(_) => {
                any_assignment = true;
            },
            LambdaKind::Statement(_) => {
                any_statement = true;
            },
        }
        i = i + 1;
    }
    let print_ok = read_opt_flag(o, DefaultOpts::ShouldPrintEveryLine).is_some();
    let capture_ok = read_opt_flag(o, DefaultOpts::ShouldCaptureAllChanges).is_some();
    (!any_assignment || print_ok) && (!any_statement || capture_ok)
}

/// The default options hold a boolean for each option `interpret` reads:
/// printing on, substitutions off.
pub proof fn lemma_default_flags()
    ensures
        opt_flag(default_opts_view(), DefaultOpts::ShouldPrintEveryLine) == Some(true),
        opt_flag(default_opts_view(), DefaultOpts::ShouldCaptureAllChanges) == Some(false),
        forall|ls: Seq<LambdaV>| #[trigger] interpret_opts_ok(ls, default_opts_view()),
{
    let s = default_opts_view();
    reveal_strlit("ShouldPrintEveryLine");
    reveal_strlit("ShouldCaptureAllChanges");
    reveal_strlit("FormatWithExtraDelimiters");
    assert(s[0].name[6] != default_opt_name(DefaultOpts::ShouldCaptureAllChanges)[6]);
    assert(opt_index(s, default_opt_name(DefaultOpts::ShouldPrintEveryLine)) == Some(0int));
    assert(opt_index(s.drop_first(), default_opt_name(DefaultOpts::ShouldCaptureAllChanges)) == Some(0int));
    assert(opt_index(s, default_opt_name(DefaultOpts::ShouldCaptureAllChanges)) == Some(1int));
    lemma_json_bool_roundtrip(true);
    lemma_json_bool_roundtrip(false);
}

/// The frames of a reduction: the first is the expression itself, each
/// next one is one step of the one before and differs from it, there are
/// at most `fuel` steps, and when fewer were taken the last frame is one
/// that a step leaves unchanged.
pub proof fn lemma_reduction_frames(b: NodeV, fuel: nat)
    ensures
        ({
            let f = reduction_frames(b, fuel);
            &&& 1 <= f.len() <= fuel + 1
            &&& f[0] == b
            &&& forall|i: int|
                0 <= i < f.len() - 1 ==> f[i + 1] == step(f[i]) && !node_same(#[trigger] step(f[i]), f[i])
            &&& f.len() <= fuel ==> node_same(step(f.last()), f.last())
        }),
    decreases fuel,
{
    if fuel == 0 || node_same(step(b), b) {
    } else {
        let rf = reduction_frames(step(b), (fuel - 1) as nat);
        lemma_reduction_frames(step(b), (fuel - 1) as nat);
        let f = reduction_frames(b, fuel);
        assert(f == seq![b] + rf);
        assert forall|i: int| 0 <= i < f.len() - 1 implies f[i + 1] == step(f[i]) && !node_same(
            #[trigger] step(f[i]),
            f[i],
        ) by {
            if i > 0 {
                assert(f[i] == rf[i - 1]);
                assert(f[i + 1] == rf[i]);
            }
        }
    }
}

/// The frame lists of a run: one per statement, in order, each the
/// reduction of the statement once the bindings are put in.
pub proof fn lemma_program_frames(
    ls: Seq<LambdaV>,
    m: Map<(Seq<char>, Option<Seq<char>>), NodeV>,
    print: bool,
    capture: bool,
    fuel: nat,
)
    ensures
        program_run(ls, m, print, capture, fuel).1 == statements_of(ls).map_values(
            |b: NodeV| reduction_frames(statement_body(b, m), fuel),
        ),
    decreases ls.len(),
{
    if ls.len() > 0 {
        lemma_program_frames(ls.drop_last(), m, print, capture, fuel);
        let prev = statements_of(ls.drop_last()).map_values(|b: NodeV| reduction_frames(statement_body(b, m), fuel));
        match ls.last() {
            LambdaV::Assignment(_, _) => {
                assert(program_run(ls, m, print, capture, fuel).1 =~= prev);
            },
            LambdaV::Statement(b) => {
                assert(statements_of(ls) == statements_of(ls.drop_last()).push(b));
                assert(statements_of(ls).map_values(|b: NodeV| reduction_frames(statement_body(b, m), fuel))
                    =~= prev.push(reduction_frames(statement_body(b, m), fuel)));
                assert(program_run(ls, m, print, capture, fuel).1 =~= prev.push(
                    reduction_frames(statement_body(b, m), fuel),
                ));
            },
        }
    }
}

/// A program without assignments has no bindings: its statements are
/// reduced as they are written.
pub proof fn lemma_no_assignment_no_bindings(ls: Seq<LambdaV>)
    requires
        !has_assignment(ls),
    ensures
        assignment_bindings(ls) == Map::<(Seq<char>, Option<Seq<char>>), NodeV>::empty(),
        forall|b: NodeV| #[trigger] statement_body(b, assignment_bindings(ls)) == b,
    decreases ls.len(),
{
    if ls.len() > 0 {
        assert(!has_assignment(ls.drop_last())) by {
            if has_assignment(ls.drop_last()) {
                let i = choose|i: int| 0 <= i < ls.drop_last().len() && ls.drop_last()[i] is Assignment;
                assert(ls[i] is Assignment);
            }
        }
        lemma_no_assignment_no_bindings(ls.drop_last());
        assert(!(ls[ls.len() - 1] is Assignment));
    }
}

/// `f` is the reduction of `b` with at most `fuel` steps: it starts with
/// `b`, each next frame is one step of the one before and differs from it,
/// and when fewer than `fuel` steps were taken the last frame is one that a
/// step leaves unchanged.
pub open spec fn is_reduction(f: Seq<NodeV>, b: NodeV, fuel: nat) -> bool {
    &&& 1 <= f.len() <= fuel + 1
    &&& f[0] == b
    &&& forall|i: int| 0 <= i < f.len() - 1 ==> f[i + 1] == step(f[i]) && !node_same(#[trigger] step(f[i]), f[i])
    &&& f.len() <= fuel ==> node_same(step(f.last()), f.last())
}

/// Each frame list of a run is the reduction of its statement.
pub proof fn lemma_run_reductions(
    ls: Seq<LambdaV>,
    m: Map<(Seq<char>, Option<Seq<char>>), NodeV>,
    print: bool,
    capture: bool,
    fuel: nat,
)
    ensures
        program_run(ls, m, print, capture, fuel).1.len() == statements_of(ls).len(),
        forall|k: int|
            0 <= k < statements_of(ls).len() ==> #[trigger] is_reduction(
                program_run(ls, m, print, capture, fuel).1[k],
                statement_body(statements_of(ls)[k], m),
                fuel,
            ),
{
    lemma_program_frames(ls, m, print, capture, fuel);
    assert forall|k: int| 0 <= k < statements_of(ls).len() implies #[trigger] is_reduction(
        program_run(ls, m, print, capture, fuel).1[k],
        statement_body(statements_of(ls)[k], m),
        fuel,
    ) by {
        lemma_reduction_frames(statement_body(statements_of(ls)[k], m), fuel);
    }
}

} // verus!
