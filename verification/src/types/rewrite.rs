//! Rewriting an expression where a caller's test picks the parts to
//! rewrite.

use vstd::prelude::*;

use crate::types::node::{node_same, nodes_equal, AbstractionNode, ApplicationNode, Node, VariableNode};

verus! {

/// Whether the test `f` can answer `b` for the part `n` under the bound
/// variable `bound`.
pub open spec fn answers<F: Fn((&Node, Option<&VariableNode>)) -> bool>(
    f: F,
    n: Node,
    bound: Option<&VariableNode>,
    b: bool,
) -> bool {
    f.ensures(((&n, bound),), b)
}

/// Whether `r` is a result of `replace` on `n`: a part for which the test
/// answers `true` is replaced by `with` (an abstraction whose body is a
/// variable is replaced whole when the test picks the body); otherwise the
/// parts inside it are visited, the body of an abstraction under the
/// abstraction's own variable.
pub open(crate) spec fn replaced<F: Fn((&Node, Option<&VariableNode>)) -> bool>(
    f: F,
    n: Node,
    bound: Option<&VariableNode>,
    with: Node,
    r: Node,
) -> bool
    decreases n,
{
    match n {
        Node::Variable(_) => (answers(f, n, bound, true) && r == with) || (answers(f, n, bound, false) && r
            == n),
        Node::Abstraction(a) => {
            ||| answers(f, n, bound, true) && r == with
            ||| answers(f, n, bound, false) && answers(f, *a.body, bound, true) && (if *a.body is Variable {
                r == with
            } else {
                r == Node::Abstraction(AbstractionNode { bound: a.bound, body: Box::new(with), span: a.span })
            })
            ||| answers(f, n, bound, false) && answers(f, *a.body, bound, false) && match (*a.bound, r) {
                (Node::Variable(bv), Node::Abstraction(ra)) => ra.bound == a.bound && ra.span == a.span
                    && replaced(f, *a.body, Some(&bv), with, *ra.body),
                _ => false,
            }
        },
        Node::Application(p) => {
            ||| answers(f, n, bound, true) && r == with
            ||| answers(f, n, bound, false) && match r {
                Node::Application(rp) => {
                    &&& rp.span == p.span
                    &&& (answers(f, *p.left, bound, true) && *rp.left == with) || (answers(f, *p.left, bound, false)
                        && replaced(f, *p.left, bound, with, *rp.left))
                    &&& (answers(f, *p.right, bound, true) && *rp.right == with) || (answers(
                        f,
                        *p.right,
                        bound,
                        false,
                    ) && replaced(f, *p.right, bound, with, *rp.right))
                },
                _ => false,
            }
        },
    }
}

/// Whether the test `f` can answer `b` for the expression `n`.
pub open spec fn picks<F: Fn(&Node) -> bool>(f: F, n: Node, b: bool) -> bool {
    f.ensures((&n,), b)
}

/// Whether a part of `s` equals `n` (as `==` on expressions compares).
pub open spec fn holds_equal(s: Seq<Node>, n: Node) -> bool {
    exists|i: int| 0 <= i < s.len() && node_same(s[i]@, n@)
}

/// Whether `after` is what `find_all` collects from `n` when it has
/// collected `before` so far: the parts inside `n` first (the body of an
/// abstraction; the left, then the right part of an application), then
/// `n` itself when the test picks it and no equal expression is there yet.
pub open(crate) spec fn collected<F: Fn(&Node) -> bool>(f: F, n: Node, before: Seq<Node>, after: Seq<Node>) -> bool
    decreases n,
{
    exists|matched: bool, mid: Seq<Node>| #![trigger picks(f, n, matched), mid.len()]
        {
            &&& picks(f, n, matched)
            &&& match n {
                Node::Variable(_) => mid == before,
                Node::Abstraction(a) => collected(f, *a.body, before, mid),
                Node::Application(p) => exists|m: Seq<Node>| #![trigger m.len()]
                    collected(f, *p.left, before, m) && collected(f, *p.right, m, mid),
            }
            &&& after == if matched && !holds_equal(mid, n) {
                mid.push(n)
            } else {
                mid
            }
        }
}

impl Node {
    /// Replaces by `with` the parts of this expression that `f` picks
    /// (see `replaced`).
    pub fn replace<F: Fn((&Node, Option<&VariableNode>)) -> bool>(
        self,
        f: &F,
        bound: Option<&VariableNode>,
        with: Node,
    ) -> (r: Node)
        requires
            forall|n: &Node, b: Option<&VariableNode>| #[trigger] f.requires(((n, b),)),
        ensures
            replaced(*f, self, bound, with, r),
        decreases self,
    {
        match self {
            Node::Abstraction(abstraction_node) => abstraction_node.replace(f, bound, with),
            Node::Application(application_node) => application_node.replace(f, bound, with),
            var => {
                if f((&var, bound)) {
                    with
                } else {
                    var
                }
            },
        }
    }
}

impl AbstractionNode {
    /// Replaces by `with` the parts of this abstraction that `f` picks
    /// (see `replaced`).
    pub fn replace<F: Fn((&Node, Option<&VariableNode>)) -> bool>(
        self,
        f: &F,
        bound: Option<&VariableNode>,
        with: Node,
    ) -> (r: Node)
        requires
            forall|n: &Node, b: Option<&VariableNode>| #[trigger] f.requires(((n, b),)),
        ensures
            replaced(*f, Node::Abstraction(self), bound, with, r),
        decreases self,
    {
        proof {
            use_type_invariant(&self);
        }
        let whole = Node::Abstraction(self.clone());
        if f((&whole, bound)) {
            return with;
        }
        if f((&self.body, bound)) {
            return match *self.body {
                Node::Variable(_) => with,
                _ => Node::Abstraction(AbstractionNode { bound: self.bound, body: Box::new(with), span: self.span }),
            };
        }
        let AbstractionNode { bound: own, body, span } = self;
        match *own {
            Node::Variable(var) => {
                let new_body = body.replace(f, Some(&var), with);
                Node::Abstraction(AbstractionNode { bound: Box::new(Node::Variable(var)), body: Box::new(new_body), span })
            },
            _ => {
                proof {
                    assert(false);
                }
                with
            },
        }
    }
}

impl ApplicationNode {
    /// Replaces by `with` the parts of this application that `f` picks
    /// (see `replaced`).
    pub fn replace<F: Fn((&Node, Option<&VariableNode>)) -> bool>(
        self,
        f: &F,
        bound: Option<&VariableNode>,
        with: Node,
    ) -> (r: Node)
        requires
            forall|n: &Node, b: Option<&VariableNode>| #[trigger] f.requires(((n, b),)),
        ensures
            replaced(*f, Node::Application(self), bound, with, r),
        decreases self,
    {
        let whole = Node::Application(self.clone());
        if f((&whole, bound)) {
            return with;
        }
        let ApplicationNode { left, right, span } = self;
        let new_left = if f((&left, bound)) {
            with.clone()
        } else {
            left.replace(f, bound, with.clone())
        };
        let new_right = if f((&right, bound)) {
            with
        } else {
            right.replace(f, bound, with.clone())
        };
        Node::Application(ApplicationNode { left: Box::new(new_left), right: Box::new(new_right), span })
    }
}

pub open spec fn refs_view(v: Seq<&Node>) -> Seq<Node> {
    v.map_values(|x: &Node| *x)
}

impl Node {
    /// The parts of this expression (itself included) that `f` picks,
    /// inner parts first, an expression equal to one already found left
    /// out (see `collected`).
    pub fn find_all<F: Fn(&Node) -> bool>(&mut self, f: &F) -> (r: Vec<&Node>)
        requires
            forall|n: &Node| #[trigger] f.requires((n,)),
        ensures
            *final(self) == *old(self),
            collected(*f, *old(self), Seq::empty(), refs_view(r@)),
    {
        let mut all: Vec<&Node> = Vec::new();
        assert(refs_view(all@) =~= Seq::<Node>::empty());
        let me: &Node = self;
        me.find_mut_all_into(f, &mut all);
        all
    }

    fn find_mut_all_into<'a, F: Fn(&Node) -> bool>(&'a self, f: &F, all: &mut Vec<&'a Node>)
        requires
            forall|n: &Node| #[trigger] f.requires((n,)),
        ensures
            collected(*f, *self, refs_view(old(all)@), refs_view(final(all)@)),
        decreases self,
    {
        let ghost before = refs_view(all@);
        let matched = f(self);
        match self {
            Node::Abstraction(abstraction_node) => {
                abstraction_node.body.find_mut_all_into(f, all);
            },
            Node::Application(application_node) => {
                application_node.left.find_mut_all_into(f, all);
                let ghost m = refs_view(all@);
                application_node.right.find_mut_all_into(f, all);
                assert(collected(*f, *application_node.left, before, m));
                assert(collected(*f, *application_node.right, m, refs_view(all@)));
                assert(m.len() == m.len());
            },
            Node::Variable(_) => {},
        }
        let ghost mid = refs_view(all@);
        let mut present = false;
        let mut i: usize = 0;
        while i < all.len()
            invariant
                0 <= i <= all@.len(),
                mid == refs_view(all@),
                present == exists|j: int| 0 <= j < i && node_same(mid[j]@, self@),
            decreases all@.len() - i,
        {
            assert(mid[i as int] == *all@[i as int]);
            if nodes_equal(all[i], self) {
                present = true;
            }
            i = i + 1;
        }
        assert(present == holds_equal(mid, *self));
        if matched && !present {
            all.push(self);
            assert(refs_view(all@) =~= mid.push(*self));
        }
        assert(picks(*f, *self, matched));
        assert(mid.len() == mid.len());
    }
}

impl ApplicationNode {
    pub open(crate) spec fn left_part(&self) -> Node {
        *self.left
    }

    pub open(crate) spec fn right_part(&self) -> Node {
        *self.right
    }

    pub open(crate) spec fn span_part(&self) -> crate::types::Span {
        self.span
    }

    /// The left part if `f` picks it, else the right part if `f` picks it;
    /// changes made through the result land in this application.
    pub fn find_mut<F: Fn(&Node) -> bool>(&mut self, f: F) -> (r: Option<&mut Node>)
        requires
            forall|n: &Node| #[trigger] f.requires((n,)),
        ensures
            ({
                let l = old(self).left_part();
                let rt = old(self).right_part();
                match r {
                    Some(x) => {
                        ||| picks(f, l, true) && *x == l && final(self).left_part() == *final(x)
                            && final(self).right_part() == rt && final(self).span_part() == old(
                            self,
                        ).span_part()
                        ||| picks(f, l, false) && picks(f, rt, true) && *x == rt && final(self).right_part()
                            == *final(x) && final(self).left_part() == l && final(self).span_part() == old(
                            self,
                        ).span_part()
                    },
                    None => picks(f, l, false) && picks(f, rt, false) && *final(self) == *old(self),
                }
            }),
    {
        if f(&*self.left) {
            return Some(&mut *self.left);
        }
        if f(&*self.right) {
            return Some(&mut *self.right);
        }
        None
    }
}

} // verus!
