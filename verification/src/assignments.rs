//! The table of named expressions (`name := body`) that statements refer to.

use vstd::prelude::*;

use crate::types::node::{var_same, copy_node, AbsV, AbstractionNode, AppV, ApplicationNode, Node, NodeV, VarV, VariableNode};

verus! {

/// How a variable is looked up: by identifier and subscript.
pub open spec fn var_key(v: VarV) -> (Seq<char>, Option<Seq<char>>) {
    (v.ident, v.subscript)
}

/// The value for `k` in `s`, the last entry for a key winning.
pub open spec fn entries_lookup(s: Seq<(VarV, NodeV)>, k: (Seq<char>, Option<Seq<char>>)) -> Option<
    NodeV,
>
    decreases s.len(),
{
    if s.len() == 0 {
        None
    } else if var_key(s.last().0) == k {
        Some(s.last().1)
    } else {
        entries_lookup(s.drop_last(), k)
    }
}

/// The map from variable names to expressions that `s` describes.
pub open spec fn entries_map(s: Seq<(VarV, NodeV)>) -> Map<(Seq<char>, Option<Seq<char>>), NodeV> {
    Map::new(|k: (Seq<char>, Option<Seq<char>>)| entries_lookup(s, k) is Some, |k: (Seq<char>, Option<Seq<char>>)| entries_lookup(s, k).unwrap())
}

/// A map from variables, compared by identifier and subscript, to
/// expressions.
#[derive(Debug, Clone)]
pub struct Assignments {
    pub(crate) entries: Vec<(VariableNode, Node)>,
}

impl Assignments {
    /// The entries, in insertion order.
    pub open(crate) spec fn entries_view(&self) -> Seq<(VarV, NodeV)> {
        self.entries@.map_values(|e: (VariableNode, Node)| (e.0@, e.1@))
    }

    /// The map this table holds.
    pub open spec fn as_map(&self) -> Map<(Seq<char>, Option<Seq<char>>), NodeV> {
        entries_map(self.entries_view())
    }

    /// An empty table.
    pub fn new() -> (r: Self)
        ensures
            r.as_map() == Map::<(Seq<char>, Option<Seq<char>>), NodeV>::empty(),
    {
        let r = Assignments { entries: Vec::new() };
        assert(r.as_map() =~= Map::<(Seq<char>, Option<Seq<char>>), NodeV>::empty());
        r
    }

    /// Whether the table holds no entry.
    pub fn is_empty(&self) -> (r: bool)
        ensures
            r == (self.as_map() == Map::<(Seq<char>, Option<Seq<char>>), NodeV>::empty()),
    {
        if self.entries.len() == 0 {
            assert(self.as_map() =~= Map::<(Seq<char>, Option<Seq<char>>), NodeV>::empty());
            true
        } else {
            let ghost s = self.entries_view();
            assert(entries_lookup(s, var_key(s.last().0)) is Some);
            assert(self.as_map().contains_key(var_key(s.last().0)));
            false
        }
    }

    /// Binds `ident` to `body`, replacing an earlier binding of the same
    /// name.
    pub fn insert(&mut self, ident: VariableNode, body: Node)
        ensures
            final(self).as_map() == old(self).as_map().insert(var_key(ident@), body@),
    {
        let ghost k = var_key(ident@);
        let ghost b = body@;
        self.entries.push((ident, body));
        let ghost s = self.entries_view();
        assert(s.drop_last() =~= old(self).entries_view());
        assert(s.last() == (ident@, b));
        assert(self.as_map() =~= old(self).as_map().insert(k, b));
    }

    /// The expression bound to `v`'s name, if any.
    pub fn get(&self, v: &VariableNode) -> (r: Option<&Node>)
        ensures
            match r {
                Some(n) => self.as_map().contains_key(var_key(v@)) && self.as_map()[var_key(v@)] == n@,
                None => !self.as_map().contains_key(var_key(v@)),
            },
    {
        let ghost k = var_key(v@);
        let mut i = self.entries.len();
        assert(self.entries_view().take(i as int) =~= self.entries_view());
        while i > 0
            invariant
                i <= self.entries@.len(),
                k == var_key(v@),
                entries_lookup(self.entries_view(), k) == entries_lookup(self.entries_view().take(i as int), k),
            decreases i,
        {
            let ghost t = self.entries_view().take(i as int);
            assert(t.last() == self.entries_view()[i - 1]);
            assert(self.entries_view()[i - 1] == (self.entries@[i - 1].0@, self.entries@[i - 1].1@));
            assert(t.drop_last() =~= self.entries_view().take(i - 1));
            let same = self.entries[i - 1].0.same_as(v);
            assert(same == var_same(self.entries@[i - 1].0@, v@));
            assert(t.last().0 == self.entries@[i - 1].0@);
            assert(same == (var_key(t.last().0) == k));
            if same {
                assert(var_key(t.last().0) == k);
                assert(entries_lookup(t, k) == Some(t.last().1));
                assert(entries_lookup(self.entries_view(), k) == Some(self.entries@[i - 1].1@));
                return Some(&self.entries[i - 1].1);
            }
            i = i - 1;
        }
        None
    }
}

/// `n` with every variable that `m` names replaced by its expression; the
/// bound variables of abstractions are kept.
pub open spec fn replace_vars(n: NodeV, m: Map<(Seq<char>, Option<Seq<char>>), NodeV>) -> NodeV
    decreases n,
{
    match n {
        NodeV::Variable(v) => if m.contains_key(var_key(v)) {
            m[var_key(v)]
        } else {
            n
        },
        NodeV::Abstraction(a) => NodeV::Abstraction(
            AbsV { bound: a.bound, body: Box::new(replace_vars(*a.body, m)), span: a.span },
        ),
        NodeV::Application(p) => NodeV::Application(
            AppV {
                left: Box::new(replace_vars(*p.left, m)),
                right: Box::new(replace_vars(*p.right, m)),
                span: p.span,
            },
        ),
    }
}

/// Whether a variable named `k` occurs in `n` other than as the bound
/// variable of an abstraction.
pub open spec fn mentions(n: NodeV, k: (Seq<char>, Option<Seq<char>>)) -> bool
    decreases n,
{
    match n {
        NodeV::Variable(v) => var_key(v) == k,
        NodeV::Abstraction(a) => mentions(*a.body, k),
        NodeV::Application(p) => mentions(*p.left, k) || mentions(*p.right, k),
    }
}

/// Putting in the bindings of a table leaves no name that the table binds,
/// when the bound expressions themselves name none of them: every
/// occurrence of such a name has been replaced.
pub proof fn lemma_replace_vars_removes_names(n: NodeV, m: Map<(Seq<char>, Option<Seq<char>>), NodeV>)
    requires
        forall|k1: (Seq<char>, Option<Seq<char>>), k2: (Seq<char>, Option<Seq<char>>)|
            m.contains_key(k1) && m.contains_key(k2) ==> !#[trigger] mentions(m[k1], k2),
    ensures
        forall|k: (Seq<char>, Option<Seq<char>>)| m.contains_key(k) ==> !mentions(replace_vars(n, m), k),
    decreases n,
{
    match n {
        NodeV::Variable(v) => {},
        NodeV::Abstraction(a) => {
            lemma_replace_vars_removes_names(*a.body, m);
        },
        NodeV::Application(p) => {
            lemma_replace_vars_removes_names(*p.left, m);
            lemma_replace_vars_removes_names(*p.right, m);
        },
    }
}

/// A name that the table does not bind stays wherever it occurs.
pub proof fn lemma_replace_vars_keeps_names(
    n: NodeV,
    m: Map<(Seq<char>, Option<Seq<char>>), NodeV>,
    k: (Seq<char>, Option<Seq<char>>),
)
    requires
        !m.contains_key(k),
        mentions(n, k),
    ensures
        mentions(replace_vars(n, m), k),
    decreases n,
{
    match n {
        NodeV::Variable(v) => {},
        NodeV::Abstraction(a) => {
            lemma_replace_vars_keeps_names(*a.body, m, k);
        },
        NodeV::Application(p) => {
            if mentions(*p.left, k) {
                lemma_replace_vars_keeps_names(*p.left, m, k);
            } else {
                lemma_replace_vars_keeps_names(*p.right, m, k);
            }
        },
    }
}

/// A text with no name that the table binds is left as it is.
pub proof fn lemma_replace_vars_unbound(n: NodeV, m: Map<(Seq<char>, Option<Seq<char>>), NodeV>)
    requires
        forall|k: (Seq<char>, Option<Seq<char>>)| m.contains_key(k) ==> !#[trigger] mentions(n, k),
    ensures
        replace_vars(n, m) == n,
    decreases n,
{
    match n {
        NodeV::Variable(v) => {
            assert(!mentions(n, var_key(v)) || !m.contains_key(var_key(v)));
        },
        NodeV::Abstraction(a) => {
            assert forall|k: (Seq<char>, Option<Seq<char>>)| m.contains_key(k) implies !#[trigger] mentions(
                *a.body,
                k,
            ) by {
                assert(!mentions(n, k));
            }
            lemma_replace_vars_unbound(*a.body, m);
        },
        NodeV::Application(p) => {
            assert forall|k: (Seq<char>, Option<Seq<char>>)| m.contains_key(k) implies !#[trigger] mentions(
                *p.left,
                k,
            ) by {
                assert(!mentions(n, k));
            }
            assert forall|k: (Seq<char>, Option<Seq<char>>)| m.contains_key(k) implies !#[trigger] mentions(
                *p.right,
                k,
            ) by {
                assert(!mentions(n, k));
            }
            lemma_replace_vars_unbound(*p.left, m);
            lemma_replace_vars_unbound(*p.right, m);
        },
    }
}

/// Reading a binding after writing one: the name written gives the
/// expression written, under any span; every other name keeps its
/// binding.
pub proof fn lemma_bind_then_lookup(
    m: Map<(Seq<char>, Option<Seq<char>>), NodeV>,
    ident: VarV,
    body: NodeV,
    v: VarV,
)
    ensures
        ({
            let after = m.insert(var_key(ident), body);
            &&& var_same(v, ident) ==> after.contains_key(var_key(v)) && after[var_key(v)] == body
            &&& !var_same(v, ident) ==> (after.contains_key(var_key(v)) == m.contains_key(var_key(v))
                && after[var_key(v)] == m[var_key(v)])
        }),
{
}

/// Putting in no bindings leaves an expression as it is.
pub proof fn lemma_replace_vars_empty(n: NodeV)
    ensures
        replace_vars(n, Map::empty()) == n,
    decreases n,
{
    match n {
        NodeV::Abstraction(a) => {
            lemma_replace_vars_empty(*a.body);
        },
        NodeV::Application(p) => {
            lemma_replace_vars_empty(*p.left);
            lemma_replace_vars_empty(*p.right);
        },
        _ => {},
    }
}

impl Node {
    /// This expression with each variable bound in `assignments` replaced
    /// by a copy of its expression.
    pub fn replace_assignments(self, assignments: &Assignments) -> (r: Node)
        ensures
            r@ == replace_vars(self@, assignments.as_map()),
        decreases self,
    {
        match self {
            Node::Variable(v) => {
                match assignments.get(&v) {
                    Some(n) => copy_node(n),
                    None => Node::Variable(v),
                }
            },
            Node::Abstraction(a) => {
                proof {
                    use_type_invariant(&a);
                }
                let ghost av = a@;
                let AbstractionNode { bound, body, span } = a;
                assert(crate::types::node::node_view(*bound) == *av.bound);
                let new_body = body.replace_assignments(assignments);
                let r = Node::Abstraction(AbstractionNode { bound, body: Box::new(new_body), span });
                assert(r@ == NodeV::Abstraction(
                    AbsV { bound: av.bound, body: Box::new(replace_vars(*av.body, assignments.as_map())), span: av.span },
                ));
                r
            },
            Node::Application(p) => {
                let ApplicationNode { left, right, span } = p;
                let l = left.replace_assignments(assignments);
                let r = right.replace_assignments(assignments);
                Node::Application(ApplicationNode { left: Box::new(l), right: Box::new(r), span })
            },
        }
    }
}

} // verus!
