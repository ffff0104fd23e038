//! The types that the browser build of the interpreter hands out: plain
//! wrappers around expressions and program lines, with the queries a
//! script needs.

use vstd::prelude::*;

use crate::interpreter::{interpret, nodes_view, program_run, InterpretingError};
use crate::parsing::{
    collect_results, lambdas_view, results_view, spec_parse_program, Lambda, LambdaAssignment, LambdaKind,
    LambdaStatement, LambdaV, UnwrapExpressions,
};
use crate::types::node::{
    copy_node, node_text, var_text, write_node, write_variable, AbsV, AbstractionNode, AppV, ApplicationNode, Node,
    NodeV, VarV, VariableNode,
};
use crate::types::parse::spec_parse_node;
use crate::types::reduce::step;
use crate::types::{ErrV, ParsingError, ReductionError};

verus! {

/// An expression handed to a script.
#[derive(Debug, Clone)]
pub struct WasmNode {
    pub(crate) inner: Node,
}

impl View for WasmNode {
    type V = NodeV;

    open(crate) spec fn view(&self) -> NodeV {
        self.inner@
    }
}

impl WasmNode {
    /// Wraps `value`.
    pub fn from_node(value: Node) -> (r: WasmNode)
        ensures
            r@ == value@,
    {
        WasmNode { inner: value }
    }

    /// Wraps a copy of `value`.
    pub fn from_ref(value: &Node) -> (r: WasmNode)
        ensures
            r@ == value@,
    {
        WasmNode { inner: copy_node(value) }
    }

    /// The wrapped expression.
    pub fn into_node(self) -> (r: Node)
        ensures
            r@ == self@,
    {
        self.inner
    }

    /// Reads an expression starting at position 0.
    pub fn parse_str(s: &str) -> (r: Result<WasmNode, ParsingError>)
        requires
            4 * s@.len() + 4 <= usize::MAX,
        ensures
            match r {
                Ok(n) => spec_parse_node(s@, 0) == Ok::<NodeV, ErrV>(n@),
                Err(e) => spec_parse_node(s@, 0) == Err::<NodeV, ErrV>(e@),
            },
    {
        match Node::parse_str(s, 0) {
            Ok(n) => Ok(WasmNode { inner: n }),
            Err(e) => Err(e),
        }
    }

    /// One reduction step of an application; any other expression is
    /// returned as it is.
    pub fn reduce(self) -> (r: Result<WasmNode, ReductionError>)
        ensures
            r matches Ok(n) && n@ == (if self@ is Application {
                step(self@)
            } else {
                self@
            }),
    {
        match self.inner {
            Node::Application(application_node) => match application_node.reduce_self() {
                Ok(n) => Ok(WasmNode { inner: n }),
                Err(e) => Err(e),
            },
            other => Ok(WasmNode { inner: other }),
        }
    }

    /// What the expression is, with its part.
    pub fn inner(&self) -> (r: WasmNodeInner)
        ensures
            r@ == inner_of(self@),
    {
        WasmNodeInner::from(copy_node(&self.inner))
    }

    /// The text of the expression.
    pub fn to_js_string(&self) -> (r: String)
        ensures
            r@ == node_text(self@),
    {
        let mut s = String::new();
        write_node(&self.inner, &mut s);
        s
    }
}

/// The three kinds of expression.
#[derive(Debug, Clone, Copy, PartialEq, Eq, Structural)]
pub enum WasmNodeInnerKind {
    Variable,
    Abstraction,
    Application,
}

pub fn wasm_node_inner_kind_is_variable(inner: WasmNodeInnerKind) -> (r: bool)
    ensures
        r == (inner == WasmNodeInnerKind::Variable),
{
    matches!(inner, WasmNodeInnerKind::Variable)
}

pub fn wasm_node_inner_kind_is_abstraction(inner: WasmNodeInnerKind) -> (r: bool)
    ensures
        r == (inner == WasmNodeInnerKind::Abstraction),
{
    matches!(inner, WasmNodeInnerKind::Abstraction)
}

pub fn wasm_node_inner_kind_is_application(inner: WasmNodeInnerKind) -> (r: bool)
    ensures
        r == (inner == WasmNodeInnerKind::Application),
{
    matches!(inner, WasmNodeInnerKind::Application)
}

/// The name of a kind.
pub open spec fn inner_kind_name(k: WasmNodeInnerKind) -> Seq<char> {
    match k {
        WasmNodeInnerKind::Variable => "Variable"@,
        WasmNodeInnerKind::Abstraction => "Abstraction"@,
        WasmNodeInnerKind::Application => "Application"@,
    }
}

/// The name of the kind `inner`.
pub fn wasm_node_inner_kind_to_js_string(inner: WasmNodeInnerKind) -> (r: String)
    ensures
        r@ == inner_kind_name(inner),
{
    match inner {
        WasmNodeInnerKind::Variable => crate::text::string_of("Variable"),
        WasmNodeInnerKind::Abstraction => crate::text::string_of("Abstraction"),
        WasmNodeInnerKind::Application => crate::text::string_of("Application"),
    }
}

/// An expression taken apart: its kind, and the part of that kind.
#[derive(Debug, Clone)]
pub struct WasmNodeInner {
    pub(crate) kind: WasmNodeInnerKind,
    pub(crate) variable: Option<VariableNode>,
    pub(crate) abstraction: Option<AbstractionNode>,
    pub(crate) application: Option<ApplicationNode>,
}

/// The content of a `WasmNodeInner`.
pub struct WasmNodeInnerV {
    pub kind: WasmNodeInnerKind,
    pub variable: Option<VarV>,
    pub abstraction: Option<AbsV>,
    pub application: Option<AppV>,
}

impl View for WasmNodeInner {
    type V = WasmNodeInnerV;

    open(crate) spec fn view(&self) -> WasmNodeInnerV {
        WasmNodeInnerV {
            kind: self.kind,
            variable: match self.variable {
                Some(v) => Some(v@),
                None => None,
            },
            abstraction: match self.abstraction {
                Some(a) => Some(a@),
                None => None,
            },
            application: match self.application {
                Some(p) => Some(p@),
                None => None,
            },
        }
    }
}

/// An expression taken apart. An abstraction is reported with the kind
/// `Variable` and its part under `abstraction`.
pub open spec fn inner_of(n: NodeV) -> WasmNodeInnerV {
    match n {
        NodeV::Variable(v) => WasmNodeInnerV {
            kind: WasmNodeInnerKind::Variable,
            variable: Some(v),
            abstraction: None,
            application: None,
        },
        NodeV::Abstraction(a) => WasmNodeInnerV {
            kind: WasmNodeInnerKind::Variable,
            variable: None,
            abstraction: Some(a),
            application: None,
        },
        NodeV::Application(p) => WasmNodeInnerV {
            kind: WasmNodeInnerKind::Application,
            variable: None,
            abstraction: None,
            application: Some(p),
        },
    }
}

impl WasmNodeInner {
    /// `value` taken apart (see `inner_of`).
    pub fn from(value: Node) -> (r: Self)
        ensures
            r@ == inner_of(value@),
    {
        match value {
            Node::Variable(variable_node) => WasmNodeInner {
                kind: WasmNodeInnerKind::Variable,
                variable: Some(variable_node),
                abstraction: None,
                application: None,
            },
            Node::Abstraction(abstraction_node) => WasmNodeInner {
                kind: WasmNodeInnerKind::Variable,
                variable: None,
                abstraction: Some(abstraction_node),
                application: None,
            },
            Node::Application(application_node) => WasmNodeInner {
                kind: WasmNodeInnerKind::Application,
                variable: None,
                abstraction: None,
                application: Some(application_node),
            },
        }
    }

    pub fn kind(&self) -> (r: WasmNodeInnerKind)
        ensures
            r == self@.kind,
    {
        self.kind
    }

    pub fn is_variable(&self) -> (r: bool)
        ensures
            r == self@.variable is Some,
    {
        self.variable.is_some()
    }

    pub fn is_abstraction(&self) -> (r: bool)
        ensures
            r == self@.abstraction is Some,
    {
        self.abstraction.is_some()
    }

    pub fn is_application(&self) -> (r: bool)
        ensures
            r == self@.application is Some,
    {
        self.application.is_some()
    }

    /// The variable; there must be one.
    pub fn variable(&self) -> (r: VariableNode)
        requires
            self@.variable is Some,
        ensures
            Some(r@) == self@.variable,
    {
        self.variable.as_ref().unwrap().clone()
    }

    /// The abstraction; there must be one.
    pub fn abstraction(&self) -> (r: AbstractionNode)
        requires
            self@.abstraction is Some,
        ensures
            Some(r@) == self@.abstraction,
    {
        self.abstraction.as_ref().unwrap().clone()
    }

    /// The application; there must be one.
    pub fn application(&self) -> (r: ApplicationNode)
        requires
            self@.application is Some,
        ensures
            Some(r@) == self@.application,
    {
        self.application.as_ref().unwrap().clone()
    }
}

/// An assignment handed to a script.
#[derive(Debug, Clone)]
pub struct WasmAssignment {
    pub(crate) ident: VariableNode,
    pub(crate) body: Node,
}

impl View for WasmAssignment {
    type V = (VarV, NodeV);

    open(crate) spec fn view(&self) -> (VarV, NodeV) {
        (self.ident@, self.body@)
    }
}

impl WasmAssignment {
    /// The variable assigned.
    pub fn ident(&self) -> (r: VariableNode)
        ensures
            r@ == self@.0,
    {
        self.ident.clone()
    }

    /// The expression assigned.
    pub fn body(&self) -> (r: WasmNode)
        ensures
            r@ == self@.1,
    {
        WasmNode::from_ref(&self.body)
    }

    /// The text `ident := body`.
    pub fn to_js_string(&self) -> (r: String)
        ensures
            r@ == var_text(self@.0) + " := "@ + node_text(self@.1),
    {
        let mut s = String::new();
        write_variable(&self.ident, &mut s);
        crate::text::append_str(&mut s, " := ");
        write_node(&self.body, &mut s);
        s
    }
}

/// What a program line is, as a script sees it.
#[derive(Debug, Clone, Copy, PartialEq, Eq, Structural)]
pub enum WasmLambdaKindInner {
    Assignment,
    Statement,
    StandaloneInvocation,
}

/// A program line handed to a script: its kind, and the assignment or the
/// statement it holds.
#[derive(Debug, Clone)]
pub struct WasmLambdaKind {
    pub(crate) kind: WasmLambdaKindInner,
    pub(crate) assignment: Option<WasmAssignment>,
    pub(crate) statement: Option<Node>,
}

/// The content of a `WasmLambdaKind`.
pub struct WasmLambdaKindV {
    pub kind: WasmLambdaKindInner,
    pub assignment: Option<(VarV, NodeV)>,
    pub statement: Option<NodeV>,
}

impl View for WasmLambdaKind {
    type V = WasmLambdaKindV;

    open(crate) spec fn view(&self) -> WasmLambdaKindV {
        WasmLambdaKindV {
            kind: self.kind,
            assignment: match self.assignment {
                Some(a) => Some(a@),
                None => None,
            },
            statement: match self.statement {
                Some(n) => Some(n@),
                None => None,
            },
        }
    }
}

/// A program line as a script sees it.
pub open spec fn wasm_kind_of(l: LambdaV) -> WasmLambdaKindV {
    match l {
        LambdaV::Assignment(i, b) => WasmLambdaKindV {
            kind: WasmLambdaKindInner::Assignment,
            assignment: Some((i, b)),
            statement: None,
        },
        LambdaV::Statement(b) => WasmLambdaKindV {
            kind: WasmLambdaKindInner::Statement,
            assignment: None,
            statement: Some(b),
        },
    }
}

impl WasmLambdaKind {
    /// The line `val` as a script sees it.
    pub fn from(val: LambdaKind) -> (r: Self)
        ensures
            r@ == wasm_kind_of(val@),
    {
        match val {
            LambdaKind::Assignment(LambdaAssignment { ident, body }) => WasmLambdaKind {
                kind: WasmLambdaKindInner::Assignment,
                assignment: Some(WasmAssignment { ident, body }),
                statement: None,
            },
            LambdaKind::Statement(LambdaStatement { body }) => WasmLambdaKind {
                kind: WasmLambdaKindInner::Statement,
                assignment: None,
                statement: Some(body),
            },
        }
    }

    pub fn kind(&self) -> (r: WasmLambdaKindInner)
        ensures
            r == self@.kind,
    {
        self.kind
    }

    pub fn is_assignment(&self) -> (r: bool)
        ensures
            r == self@.assignment is Some,
    {
        self.assignment.is_some()
    }

    pub fn is_statement(&self) -> (r: bool)
        ensures
            r == self@.statement is Some,
    {
        self.statement.is_some()
    }

    /// The assignment, if the line is one.
    pub fn assignment(&self) -> (r: Option<WasmAssignment>)
        ensures
            match r {
                Some(a) => self@.assignment == Some(a@),
                None => self@.assignment is None,
            },
    {
        match &self.assignment {
            Some(a) => Some(WasmAssignment { ident: a.ident.clone(), body: copy_node(&a.body) }),
            None => None,
        }
    }

    /// The statement's expression, if the line is one.
    pub fn statement(&self) -> (r: Option<WasmNode>)
        ensures
            match r {
                Some(n) => self@.statement == Some(n@),
                None => self@.statement is None,
            },
    {
        match &self.statement {
            Some(n) => Some(WasmNode::from_ref(n)),
            None => None,
        }
    }
}

impl Lambda {
    /// Reads the program `input` (see `Lambda::parse`): all its
    /// expressions, or the first error.
    pub fn parse_wasm(input: String) -> (r: Result<Vec<Lambda>, ParsingError>)
        requires
            4 * input@.len() + 8 <= usize::MAX,
        ensures
            match r {
                Ok(ls) => collect_results(spec_parse_program(input@)) == Ok::<Seq<LambdaV>, ErrV>(
                    lambdas_view(ls@),
                ),
                Err(e) => collect_results(spec_parse_program(input@)) == Err::<Seq<LambdaV>, ErrV>(e@),
            },
    {
        let parsed = Lambda::parse(input.as_str());
        assert(results_view(parsed@) =~= spec_parse_program(input@));
        parsed.unwrap_expressions()
    }

    /// This line as a script sees it.
    pub fn get_kind(&self) -> (r: WasmLambdaKind)
        ensures
            r@ == wasm_kind_of(self@),
    {
        WasmLambdaKind::from(self.copy().kind)
    }
}

/// The frames of each statement of a run.
#[derive(Debug, Clone)]
pub struct WasmFrames(pub(crate) Vec<Vec<Node>>);

impl View for WasmFrames {
    type V = Seq<Seq<NodeV>>;

    open(crate) spec fn view(&self) -> Seq<Seq<NodeV>> {
        self.0@.map_values(|f: Vec<Node>| nodes_view(f@))
    }
}

/// The frames of all statements, one after the other.
pub open spec fn flatten_frames(f: Seq<Seq<NodeV>>) -> Seq<NodeV>
    decreases f.len(),
{
    if f.len() == 0 {
        Seq::empty()
    } else {
        flatten_frames(f.drop_last()) + f.last()
    }
}

impl WasmFrames {
    /// All frames, statement after statement.
    pub fn get_frames(&self) -> (r: Vec<WasmNode>)
        ensures
            r@.map_values(|n: WasmNode| n@) == flatten_frames(self@),
    {
        let mut r: Vec<WasmNode> = Vec::new();
        let mut i: usize = 0;
        assert(self@.take(0) =~= Seq::<Seq<NodeV>>::empty());
        while i < self.0.len()
            invariant
                0 <= i <= self.0@.len(),
                self@.len() == self.0@.len(),
                r@.map_values(|n: WasmNode| n@) == flatten_frames(self@.take(i as int)),
            decreases self.0@.len() - i,
        {
            let f = &self.0[i];
            let ghost start = r@.map_values(|n: WasmNode| n@);
            let mut j: usize = 0;
            while j < f.len()
                invariant
                    0 <= j <= f@.len(),
                    r@.map_values(|n: WasmNode| n@) == start + nodes_view(f@).take(j as int),
                decreases f@.len() - j,
            {
                let ghost before = r@.map_values(|n: WasmNode| n@);
                r.push(WasmNode::from_ref(&f[j]));
                assert(r@.map_values(|n: WasmNode| n@) =~= before.push(f@[j as int]@));
                assert(nodes_view(f@).take(j + 1) =~= nodes_view(f@).take(j as int).push(f@[j as int]@));
                j = j + 1;
            }
            assert(nodes_view(f@).take(j as int) =~= nodes_view(f@));
            assert(self@.take(i + 1).drop_last() =~= self@.take(i as int));
            assert(self@[i as int] == nodes_view(f@));
            i = i + 1;
        }
        assert(self@.take(i as int) =~= self@);
        r
    }

    /// The number of frames of each statement.
    pub fn get_frames_lengths(&self) -> (r: Vec<usize>)
        ensures
            r@.len() == self@.len(),
            forall|k: int| 0 <= k < r@.len() ==> r@[k] == self@[k].len(),
    {
        let mut r: Vec<usize> = Vec::new();
        let mut i: usize = 0;
        while i < self.0.len()
            invariant
                0 <= i <= self.0@.len(),
                self@.len() == self.0@.len(),
                r@.len() == i,
                forall|k: int| 0 <= k < i ==> r@[k] == self@[k].len(),
            decreases self.0@.len() - i,
        {
            assert(self@[i as int] == nodes_view(self.0@[i as int]@));
            r.push(self.0[i].len());
            i = i + 1;
        }
        r
    }
}

/// Runs the program text `expressions` with the default options, at most
/// `max_reductions` steps per statement, and returns the frames of each
/// statement; a parsing error becomes the run's error.
pub fn wasm_interpret_raw(expressions: String, max_reductions: usize) -> (r: Result<WasmFrames, InterpretingError>)
    requires
        4 * expressions@.len() + 8 <= usize::MAX,
    ensures
        match collect_results(spec_parse_program(expressions@)) {
            Ok(ls) => r matches Ok(f) && f@ == program_run(ls, crate::parsing::assignment_bindings(ls), true, false, max_reductions as nat).1,
            Err(e) => r matches Err(x) && x@.err == e && x@.help is None,
        },
{
    let ls = match Lambda::parse_wasm(expressions) {
        Ok(ls) => ls,
        Err(e) => {
            return Err(InterpretingError::from_parsing_error(e));
        },
    };
    proof {
        crate::interpreter::lemma_default_flags();
    }
    let mut sink = String::new();
    match interpret(ls, &mut sink, None, max_reductions) {
        Ok(frames) => Ok(WasmFrames(frames)),
        Err(e) => Err(e),
    }
}

impl ApplicationNode {
    /// `reduce` for a script: substitutes `with` for the free occurrences
    /// of `bound` in this application.
    pub fn reduce_wasm(self, with: WasmNode, bound: Option<VariableNode>) -> (r: Result<WasmNode, ReductionError>)
        ensures
            r matches Ok(n) && n@ == (match bound {
                Some(b) => crate::types::reduce::subst(NodeV::Application(self@), b@, with@),
                None => NodeV::Application(self@),
            }),
    {
        match self.reduce(with.into_node(), bound.as_ref()) {
            Ok(n) => Ok(WasmNode::from_node(n)),
            Err(e) => Err(e),
        }
    }

    /// The left part, for a script.
    pub fn get_left(&self) -> (r: WasmNode)
        ensures
            r@ == *self@.left,
    {
        WasmNode::from_ref(self.left())
    }

    /// The right part, for a script.
    pub fn get_right(&self) -> (r: WasmNode)
        ensures
            r@ == *self@.right,
    {
        WasmNode::from_ref(self.right())
    }
}

} // verus!
