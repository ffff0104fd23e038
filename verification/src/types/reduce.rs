//! Substitution and one step of reduction.

use vstd::prelude::*;

use crate::types::node::{
    node_view, copy_node, node_same, nodes_equal, var_same, AbsV, AbstractionNode, AppV, ApplicationNode, Node,
    NodeV, VarV, VariableNode,
};
use crate::types::{ReductionError, Span};

verus! {

/// `n` with every free occurrence of the variable `x` replaced by `w`: an
/// abstraction that binds `x` is left as it is. (Bound variables of `n` are
/// not renamed.)
pub open spec fn subst(n: NodeV, x: VarV, w: NodeV) -> NodeV
    decreases n,
{
    match n {
        NodeV::Variable(v) => if var_same(v, x) {
            w
        } else {
            n
        },
        NodeV::Abstraction(a) => if (*a.bound matches NodeV::Variable(b) && var_same(b, x)) {
            n
        } else {
            NodeV::Abstraction(AbsV { bound: a.bound, body: Box::new(subst(*a.body, x, w)), span: a.span })
        },
        NodeV::Application(p) => NodeV::Application(
            AppV {
                left: Box::new(subst(*p.left, x, w)),
                right: Box::new(subst(*p.right, x, w)),
                span: p.span,
            },
        ),
    }
}

/// One reduction step. An application of an abstraction substitutes the
/// argument for the bound variable in the body. An application whose left
/// part is an application reduces that part, and when this changes nothing,
/// reduces the right part. An application of a variable reduces the right
/// part. Variables and abstractions are left as they are.
pub open spec fn step(n: NodeV) -> NodeV
    decreases n,
{
    match n {
        NodeV::Application(p) => match *p.left {
            NodeV::Abstraction(ab) => match *ab.bound {
                NodeV::Variable(b) => subst(*ab.body, b, *p.right),
                _ => n,
            },
            NodeV::Application(_) => {
                let rl = step(*p.left);
                if node_same(rl, *p.left) {
                    NodeV::Application(AppV { left: Box::new(rl), right: Box::new(step(*p.right)), span: p.span })
                } else {
                    NodeV::Application(AppV { left: Box::new(rl), right: p.right, span: p.span })
                }
            },
            NodeV::Variable(_) => NodeV::Application(
                AppV { left: p.left, right: Box::new(step(*p.right)), span: p.span },
            ),
        },
        _ => n,
    }
}

/// Substituting a variable by itself changes nothing, up to `node_same`
/// (the occurrences replaced may carry another span than the variable).
pub proof fn lemma_subst_self(n: NodeV, x: VarV)
    ensures
        node_same(subst(n, x, NodeV::Variable(x)), n),
    decreases n,
{
    match n {
        NodeV::Variable(v) => {
            crate::types::node::lemma_node_same_reflexive(n);
        },
        NodeV::Abstraction(a) => {
            crate::types::node::lemma_node_same_reflexive(n);
            crate::types::node::lemma_node_same_reflexive(*a.bound);
            lemma_subst_self(*a.body, x);
        },
        NodeV::Application(p) => {
            lemma_subst_self(*p.left, x);
            lemma_subst_self(*p.right, x);
        },
    }
}

/// Substituting for a variable that does not occur free changes nothing.
pub proof fn lemma_subst_not_free(n: NodeV, x: VarV, w: NodeV)
    requires
        !free_in(n, x),
    ensures
        subst(n, x, w) == n,
    decreases n,
{
    match n {
        NodeV::Abstraction(a) => {
            if !(*a.bound matches NodeV::Variable(b) && var_same(b, x)) {
                lemma_subst_not_free(*a.body, x, w);
            }
        },
        NodeV::Application(p) => {
            lemma_subst_not_free(*p.left, x, w);
            lemma_subst_not_free(*p.right, x, w);
        },
        _ => {},
    }
}

/// Whether `x` occurs free in `n`: not under an abstraction that binds it.
pub open spec fn free_in(n: NodeV, x: VarV) -> bool
    decreases n,
{
    match n {
        NodeV::Variable(v) => var_same(v, x),
        NodeV::Abstraction(a) => !(*a.bound matches NodeV::Variable(b) && var_same(b, x)) && free_in(*a.body, x),
        NodeV::Application(p) => free_in(*p.left, x) || free_in(*p.right, x),
    }
}

/// After substituting `w` for `x`, `x` is free in the result only if it is
/// free in `w`: every free occurrence of `x` has been replaced.
pub proof fn lemma_subst_removes_free(n: NodeV, x: VarV, w: NodeV)
    requires
        !free_in(w, x),
    ensures
        !free_in(subst(n, x, w), x),
    decreases n,
{
    match n {
        NodeV::Abstraction(a) => {
            lemma_subst_removes_free(*a.body, x, w);
        },
        NodeV::Application(p) => {
            lemma_subst_removes_free(*p.left, x, w);
            lemma_subst_removes_free(*p.right, x, w);
        },
        _ => {},
    }
}

/// Substituting for `x` keeps every other variable that is free: a
/// variable `y` other than `x` free in `n` is free in the result.
pub proof fn lemma_subst_keeps_free(n: NodeV, x: VarV, w: NodeV, y: VarV)
    requires
        !var_same(x, y),
        free_in(n, y),
    ensures
        free_in(subst(n, x, w), y),
    decreases n,
{
    match n {
        NodeV::Abstraction(a) => {
            lemma_subst_keeps_free(*a.body, x, w, y);
        },
        NodeV::Application(p) => {
            if free_in(*p.left, y) {
                lemma_subst_keeps_free(*p.left, x, w, y);
            } else {
                lemma_subst_keeps_free(*p.right, x, w, y);
            }
        },
        _ => {},
    }
}

/// A variable free after substituting `w` for `x` was free before, or is
/// free in `w`: substitution brings in nothing else.
pub proof fn lemma_subst_free_from(n: NodeV, x: VarV, w: NodeV, y: VarV)
    requires
        free_in(subst(n, x, w), y),
    ensures
        free_in(n, y) || free_in(w, y),
    decreases n,
{
    match n {
        NodeV::Abstraction(a) => {
            if !(*a.bound matches NodeV::Variable(b) && var_same(b, x)) {
                lemma_subst_free_from(*a.body, x, w, y);
            }
        },
        NodeV::Application(p) => {
            if free_in(subst(*p.left, x, w), y) {
                lemma_subst_free_from(*p.left, x, w, y);
            } else {
                lemma_subst_free_from(*p.right, x, w, y);
            }
        },
        _ => {},
    }
}

/// One step of a variable applied to a redex `(λb.B)A` reduces the redex:
/// the result applies the same variable to `B` with `A` put in for `b`.
pub proof fn lemma_step_reduces_argument(
    v: VarV,
    b: VarV,
    body: NodeV,
    arg: NodeV,
    outer: Span,
    inner: Span,
    abs: Span,
)
    ensures
        step(
            NodeV::Application(
                AppV {
                    left: Box::new(NodeV::Variable(v)),
                    right: Box::new(
                        NodeV::Application(
                            AppV {
                                left: Box::new(
                                    NodeV::Abstraction(
                                        AbsV { bound: Box::new(NodeV::Variable(b)), body: Box::new(body), span: abs },
                                    ),
                                ),
                                right: Box::new(arg),
                                span: inner,
                            },
                        ),
                    ),
                    span: outer,
                },
            ),
        ) == NodeV::Application(
            AppV { left: Box::new(NodeV::Variable(v)), right: Box::new(subst(body, b, arg)), span: outer },
        ),
{
    let ab = NodeV::Abstraction(AbsV { bound: Box::new(NodeV::Variable(b)), body: Box::new(body), span: abs });
    let redex = NodeV::Application(AppV { left: Box::new(ab), right: Box::new(arg), span: inner });
    assert(step(redex) == subst(body, b, arg));
    let whole = NodeV::Application(AppV { left: Box::new(NodeV::Variable(v)), right: Box::new(redex), span: outer });
    assert(step(whole) == NodeV::Application(
        AppV { left: Box::new(NodeV::Variable(v)), right: Box::new(step(redex)), span: outer },
    ));
}

/// Only applications reduce: a variable or an abstraction is its own step.
pub proof fn lemma_step_non_application(n: NodeV)
    requires
        !(n is Application),
    ensures
        step(n) == n,
{
}

/// `n` with the free occurrences of `x` replaced by copies of `w`.
pub fn substitute(n: Node, x: &VariableNode, w: &Node) -> (r: Node)
    ensures
        r@ == subst(n@, x@, w@),
    decreases n,
{
    match n {
        Node::Variable(v) => {
            if v.same_as(x) {
                copy_node(w)
            } else {
                Node::Variable(v)
            }
        },
        Node::Abstraction(a) => {
            proof {
                use_type_invariant(&a);
            }
            let binds = match &*a.bound {
                Node::Variable(b) => b.same_as(x),
                _ => false,
            };
            let ghost av = a@;
            if binds {
                Node::Abstraction(a)
            } else {
                let AbstractionNode { bound, body, span } = a;
                assert(node_view(*bound) == *av.bound);
                let new_body = substitute(*body, x, w);
                let r = Node::Abstraction(AbstractionNode { bound, body: Box::new(new_body), span });
                assert(r@ == NodeV::Abstraction(
                    AbsV { bound: av.bound, body: Box::new(subst(*av.body, x@, w@)), span: av.span },
                ));
                r
            }
        },
        Node::Application(p) => {
            let ApplicationNode { left, right, span } = p;
            let l = substitute(*left, x, w);
            let r = substitute(*right, x, w);
            Node::Application(ApplicationNode { left: Box::new(l), right: Box::new(r), span })
        },
    }
}

/// One reduction step of `n` (see `step`).
pub fn step_node_pub(n: Node) -> (r: Node)
    ensures
        r@ == step(n@),
{
    step_node(n)
}

/// One reduction step of `n` (see `step`).
fn step_node(n: Node) -> (r: Node)
    ensures
        r@ == step(n@),
    decreases n,
{
    match n {
        Node::Application(p) => step_application(p),
        _ => n,
    }
}

fn step_application(p: ApplicationNode) -> (r: Node)
    ensures
        r@ == step(NodeV::Application(p@)),
    decreases p,
{
    let ApplicationNode { left, right, span } = p;
    match *left {
        Node::Abstraction(ab) => {
            proof {
                use_type_invariant(&ab);
            }
            let ghost abv = ab@;
            let AbstractionNode { bound, body, span: _ } = ab;
            assert(node_view(*bound) == *abv.bound);
            assert(node_view(*body) == *abv.body);
            match *bound {
                Node::Variable(bv) => {
                    assert(*abv.bound == NodeV::Variable(bv@));
                    substitute(*body, &bv, &right)
                },
                _ => {
                    proof {
                        assert(false);
                    }
                    *body
                },
            }
        },
        Node::Application(ap) => {
            let before = Node::Application(ap);
            let reduced_left = step_node(copy_node(&before));
            if nodes_equal(&reduced_left, &before) {
                let reduced_right = step_node(*right);
                Node::Application(ApplicationNode::new(reduced_left, reduced_right, span))
            } else {
                Node::Application(ApplicationNode::new(reduced_left, *right, span))
            }
        },
        left_node => {
            let reduced_right = step_node(*right);
            Node::Application(ApplicationNode::new(left_node, reduced_right, span))
        },
    }
}

impl ApplicationNode {
    /// One reduction step of this application (see `step`); it never fails.
    pub fn reduce_self(self) -> (r: Result<Node, ReductionError>)
        ensures
            r matches Ok(n) && n@ == step(NodeV::Application(self@)),
    {
        Ok(step_application(self))
    }

    /// Substitutes `with` for the free occurrences of `bound` in this
    /// application; without a bound variable the application is returned.
    pub fn reduce(self, with: Node, bound: Option<&VariableNode>) -> (r: Result<Node, ReductionError>)
        ensures
            r matches Ok(n) && n@ == (match bound {
                Some(b) => subst(NodeV::Application(self@), b@, with@),
                None => NodeV::Application(self@),
            }),
    {
        match bound {
            Some(b) => Ok(substitute(Node::Application(self), b, &with)),
            None => Ok(Node::Application(self)),
        }
    }
}

impl AbstractionNode {
    /// Substitutes `with` for the free occurrences of `bound` in this
    /// abstraction; without a bound variable the abstraction is returned.
    pub fn reduce(self, with: Node, bound: Option<&VariableNode>) -> (r: Result<Node, ReductionError>)
        ensures
            r matches Ok(n) && n@ == (match bound {
                Some(b) => subst(NodeV::Abstraction(self@), b@, with@),
                None => NodeV::Abstraction(self@),
            }),
    {
        match bound {
            Some(b) => Ok(substitute(Node::Abstraction(self), b, &with)),
            None => Ok(Node::Abstraction(self)),
        }
    }
}

impl Node {
    /// One reduction step (see `step`); it never fails.
    pub fn reduce_self(self) -> (r: Result<Node, ReductionError>)
        ensures
            r matches Ok(n) && n@ == step(self@),
    {
        Ok(step_node(self))
    }

    /// Substitutes `with` for the free occurrences of `bound`; without a
    /// bound variable the expression is returned unchanged.
    pub fn reduce(self, with: Node, bound: Option<&VariableNode>) -> (r: Result<Node, ReductionError>)
        ensures
            r matches Ok(n) && n@ == (match bound {
                Some(b) => subst(self@, b@, with@),
                None => self@,
            }),
    {
        match bound {
            Some(b) => Ok(substitute(self, b, &with)),
            None => Ok(self),
        }
    }
}

} // verus!
