//! The syntax tree of lambda expressions.

use vstd::prelude::*;

use crate::text::{append_str, push_char};
use crate::types::{mk_span, opt_string_view, Span};

verus! {

/// A variable: an identifier with an optional subscript (`x`, `x_1`,
/// `x_{name}`).
#[derive(Debug)]
pub struct VariableNode {
    pub(crate) ident: String,
    pub(crate) subscript: Option<String>,
    pub(crate) span: Span,
    pub(crate) is_stdlib: bool,
}

/// A lambda abstraction `λbound.body`; its bound is always a variable.
#[derive(Debug)]
pub struct AbstractionNode {
    pub(crate) bound: Box<Node>,
    pub(crate) body: Box<Node>,
    pub(crate) span: Span,
}

/// An application of `left` to `right`.
#[derive(Debug)]
pub struct ApplicationNode {
    pub(crate) left: Box<Node>,
    pub(crate) right: Box<Node>,
    pub(crate) span: Span,
}

/// A lambda expression.
#[derive(Debug)]
pub enum Node {
    Variable(VariableNode),
    Abstraction(AbstractionNode),
    Application(ApplicationNode),
}

/// The content of a variable.
pub struct VarV {
    pub ident: Seq<char>,
    pub subscript: Option<Seq<char>>,
    pub span: Span,
    pub is_stdlib: bool,
}

/// The content of an abstraction.
pub struct AbsV {
    pub bound: Box<NodeV>,
    pub body: Box<NodeV>,
    pub span: Span,
}

/// The content of an application.
pub struct AppV {
    pub left: Box<NodeV>,
    pub right: Box<NodeV>,
    pub span: Span,
}

/// The content of a lambda expression.
pub enum NodeV {
    Variable(VarV),
    Abstraction(AbsV),
    Application(AppV),
}

impl View for VariableNode {
    type V = VarV;

    open(crate) spec fn view(&self) -> VarV {
        VarV {
            ident: self.ident@,
            subscript: opt_string_view(self.subscript),
            span: self.span,
            is_stdlib: self.is_stdlib,
        }
    }
}

pub open(crate) spec fn node_view(n: Node) -> NodeV
    decreases n,
{
    match n {
        Node::Variable(v) => NodeV::Variable(v@),
        Node::Abstraction(a) => NodeV::Abstraction(
            AbsV {
                bound: Box::new(node_view(*a.bound)),
                body: Box::new(node_view(*a.body)),
                span: a.span,
            },
        ),
        Node::Application(p) => NodeV::Application(
            AppV {
                left: Box::new(node_view(*p.left)),
                right: Box::new(node_view(*p.right)),
                span: p.span,
            },
        ),
    }
}

impl View for Node {
    type V = NodeV;

    open(crate) spec fn view(&self) -> NodeV {
        node_view(*self)
    }
}

impl View for AbstractionNode {
    type V = AbsV;

    open(crate) spec fn view(&self) -> AbsV {
        AbsV {
            bound: Box::new(node_view(*self.bound)),
            body: Box::new(node_view(*self.body)),
            span: self.span,
        }
    }
}

impl View for ApplicationNode {
    type V = AppV;

    open(crate) spec fn view(&self) -> AppV {
        AppV {
            left: Box::new(node_view(*self.left)),
            right: Box::new(node_view(*self.right)),
            span: self.span,
        }
    }
}

/// The span of a lambda expression.
pub open spec fn node_span(n: NodeV) -> Span {
    match n {
        NodeV::Variable(v) => v.span,
        NodeV::Abstraction(a) => a.span,
        NodeV::Application(p) => p.span,
    }
}

/// Two variables are the same when identifier and subscript agree; span and
/// origin do not count.
pub open spec fn var_same(a: VarV, b: VarV) -> bool {
    a.ident == b.ident && a.subscript == b.subscript
}

/// Equality of lambda expressions: variables compare by name, abstractions
/// and applications by their parts and their spans.
pub open spec fn node_same(a: NodeV, b: NodeV) -> bool
    decreases a,
{
    match a {
        NodeV::Variable(x) => match b {
            NodeV::Variable(y) => var_same(x, y),
            _ => false,
        },
        NodeV::Abstraction(x) => match b {
            NodeV::Abstraction(y) => node_same(*x.bound, *y.bound) && node_same(*x.body, *y.body)
                && x.span == y.span,
            _ => false,
        },
        NodeV::Application(x) => match b {
            NodeV::Application(y) => node_same(*x.left, *y.left) && node_same(*x.right, *y.right)
                && x.span == y.span,
            _ => false,
        },
    }
}

/// Every expression is `node_same` to itself.
pub proof fn lemma_node_same_reflexive(a: NodeV)
    ensures
        node_same(a, a),
    decreases a,
{
    match a {
        NodeV::Abstraction(x) => {
            lemma_node_same_reflexive(*x.bound);
            lemma_node_same_reflexive(*x.body);
        },
        NodeV::Application(x) => {
            lemma_node_same_reflexive(*x.left);
            lemma_node_same_reflexive(*x.right);
        },
        _ => {},
    }
}

/// `node_same` is transitive.
pub proof fn lemma_node_same_transitive(a: NodeV, b: NodeV, c: NodeV)
    requires
        node_same(a, b),
        node_same(b, c),
    ensures
        node_same(a, c),
    decreases a,
{
    match (a, b, c) {
        (NodeV::Abstraction(x), NodeV::Abstraction(y), NodeV::Abstraction(z)) => {
            lemma_node_same_transitive(*x.bound, *y.bound, *z.bound);
            lemma_node_same_transitive(*x.body, *y.body, *z.body);
        },
        (NodeV::Application(x), NodeV::Application(y), NodeV::Application(z)) => {
            lemma_node_same_transitive(*x.left, *y.left, *z.left);
            lemma_node_same_transitive(*x.right, *y.right, *z.right);
        },
        _ => {},
    }
}

/// `node_same` does not depend on the order of its arguments.
pub proof fn lemma_node_same_symmetric(a: NodeV, b: NodeV)
    ensures
        node_same(a, b) == node_same(b, a),
    decreases a,
{
    match (a, b) {
        (NodeV::Abstraction(x), NodeV::Abstraction(y)) => {
            lemma_node_same_symmetric(*x.bound, *y.bound);
            lemma_node_same_symmetric(*x.body, *y.body);
        },
        (NodeV::Application(x), NodeV::Application(y)) => {
            lemma_node_same_symmetric(*x.left, *y.left);
            lemma_node_same_symmetric(*x.right, *y.right);
        },
        _ => {},
    }
}

impl AbstractionNode {
    pub fn new(bound: VariableNode, body: Node, span: Span) -> (r: Self)
        ensures
            r@ == (AbsV {
                bound: Box::new(NodeV::Variable(bound@)),
                body: Box::new(body@),
                span,
            }),
    {
        AbstractionNode { bound: Box::new(Node::Variable(bound)), body: Box::new(body), span }
    }

    pub fn bound(&self) -> (r: &Box<Node>)
        ensures
            r@ == *self@.bound,
            r@ is Variable,
    {
        proof {
            use_type_invariant(self);
        }
        &self.bound
    }

    pub fn body(&self) -> (r: &Box<Node>)
        ensures
            r@ == *self@.body,
    {
        &self.body
    }

    pub fn span(&self) -> (r: &Span)
        ensures
            *r == self@.span,
    {
        &self.span
    }

    #[verifier::type_invariant]
    pub(crate) open spec fn bound_is_variable(self) -> bool {
        *self.bound is Variable
    }
}

fn option_string_eq(a: &Option<String>, b: &Option<String>) -> (r: bool)
    ensures
        r == (opt_string_view(*a) == opt_string_view(*b)),
{
    match (a, b) {
        (Some(x), Some(y)) => *x == *y,
        (None, None) => true,
        _ => false,
    }
}

fn option_string_clone(a: &Option<String>) -> (r: Option<String>)
    ensures
        r == *a,
{
    match a {
        Some(x) => Some(x.clone()),
        None => None,
    }
}

/// Number of bytes in the UTF-8 encoding of `s`.
pub open spec fn byte_len(s: Seq<char>) -> int {
    vstd::utf8::encode_utf8(s).len() as int
}

/// The variable `VariableNode::new` makes: its span starts at `start` and
/// covers the identifier's first character plus, with a subscript, the
/// subscript's bytes and two (`_x`) or four (`_{...}`) more positions.
pub open spec fn new_var_view(ident: Seq<char>, subscript: Option<Seq<char>>, start: int, had_curly: bool) -> VarV {
    VarV {
        ident,
        subscript,
        span: match subscript {
            Some(sub) => if !had_curly {
                mk_span(start, start + byte_len(sub) + 2)
            } else {
                mk_span(start, start + byte_len(sub) + 4)
            },
            None => mk_span(start, start + 1),
        },
        is_stdlib: false,
    }
}

/// Number of bytes in the UTF-8 encoding of `s`.
pub(crate) fn str_byte_len(s: &str) -> (r: usize)
    requires
        4 * s@.len() <= usize::MAX,
    ensures
        r == byte_len(s@),
{
    proof {
        lemma_encode_len(s@);
    }
    s.len()
}

impl VariableNode {
    pub fn new(ident: String, subscript: Option<String>, start: usize, had_curly: bool) -> (r: Self)
        requires
            subscript matches Some(sub) ==> start + 4 * sub@.len() + 4 <= usize::MAX,
            subscript is None ==> start < usize::MAX,
        ensures
            r@ == new_var_view(ident@, opt_string_view(subscript), start as int, had_curly),
    {
        let span = match &subscript {
            Some(sub) => {
                let n = str_byte_len(sub.as_str());
                proof {
                    lemma_encode_len(sub@);
                }
                if !had_curly {
                    Span::new(start, start + n + 2)
                } else {
                    Span::new(start, start + n + 4)
                }
            },
            None => Span::new(start, start + 1),
        };
        VariableNode { ident, span, subscript, is_stdlib: false }
    }

    pub fn ident(&self) -> (r: &String)
        ensures
            r@ == self@.ident,
    {
        &self.ident
    }

    pub fn subscript(&self) -> (r: &Option<String>)
        ensures
            opt_string_view(*r) == self@.subscript,
    {
        &self.subscript
    }

    pub fn span(&self) -> (r: &Span)
        ensures
            *r == self@.span,
    {
        &self.span
    }

    pub fn is_stdlib(&self) -> (r: &bool)
        ensures
            *r == self@.is_stdlib,
    {
        &self.is_stdlib
    }

    /// The identifier, copied.
    pub fn get_ident(&self) -> (r: String)
        ensures
            r@ == self@.ident,
    {
        self.ident.clone()
    }

    /// The subscript, copied.
    pub fn get_subscript(&self) -> (r: Option<String>)
        ensures
            opt_string_view(r) == self@.subscript,
    {
        option_string_clone(&self.subscript)
    }

    /// Equality by identifier and subscript.
    pub fn same_as(&self, other: &VariableNode) -> (r: bool)
        ensures
            r == var_same(self@, other@),
    {
        self.ident == other.ident && option_string_eq(&self.subscript, &other.subscript)
    }

    /// A copy of this variable.
    pub fn copy(&self) -> (r: VariableNode)
        ensures
            r == *self,
    {
        VariableNode {
            ident: self.ident.clone(),
            subscript: option_string_clone(&self.subscript),
            span: self.span,
            is_stdlib: self.is_stdlib,
        }
    }
}

impl Clone for VariableNode {
    fn clone(&self) -> (r: Self)
        ensures
            r == *self,
    {
        self.copy()
    }
}

impl PartialEq for VariableNode {
    fn eq(&self, other: &VariableNode) -> (r: bool) {
        self.same_as(other)
    }
}

impl vstd::std_specs::cmp::PartialEqSpecImpl for VariableNode {
    open spec fn obeys_eq_spec() -> bool {
        true
    }

    open spec fn eq_spec(&self, other: &VariableNode) -> bool {
        var_same(self@, other@)
    }
}

impl PartialEq<str> for VariableNode {
    fn eq(&self, other: &str) -> (r: bool) {
        let mut text = String::new();
        write_variable(self, &mut text);
        crate::text::str_eq(text.as_str(), other)
    }
}

impl vstd::std_specs::cmp::PartialEqSpecImpl<str> for VariableNode {
    open spec fn obeys_eq_spec() -> bool {
        true
    }

    /// A variable equals a text when its written form is that text.
    open spec fn eq_spec(&self, other: &str) -> bool {
        var_text(self@) == other@
    }
}

impl<'a> PartialEq<&'a str> for VariableNode {
    fn eq(&self, other: &&'a str) -> (r: bool) {
        let mut text = String::new();
        write_variable(self, &mut text);
        crate::text::str_eq(text.as_str(), *other)
    }
}

impl<'a> vstd::std_specs::cmp::PartialEqSpecImpl<&'a str> for VariableNode {
    open spec fn obeys_eq_spec() -> bool {
        true
    }

    /// A variable equals a text when its written form is that text.
    open spec fn eq_spec(&self, other: &&'a str) -> bool {
        var_text(self@) == (*other)@
    }
}

impl From<VariableNode> for Node {
    fn from(val: VariableNode) -> (r: Node) {
        Node::Variable(val)
    }
}

impl vstd::std_specs::convert::FromSpecImpl<VariableNode> for Node {
    open spec fn obeys_from_spec() -> bool {
        true
    }

    open spec fn from_spec(v: VariableNode) -> Node {
        Node::Variable(v)
    }
}

impl From<ApplicationNode> for Node {
    fn from(val: ApplicationNode) -> (r: Node) {
        Node::Application(val)
    }
}

impl vstd::std_specs::convert::FromSpecImpl<ApplicationNode> for Node {
    open spec fn obeys_from_spec() -> bool {
        true
    }

    open spec fn from_spec(v: ApplicationNode) -> Node {
        Node::Application(v)
    }
}

/// A copy of `n`.
pub fn copy_node(n: &Node) -> (r: Node)
    ensures
        r == *n,
    decreases n,
{
    match n {
        Node::Variable(v) => Node::Variable(v.copy()),
        Node::Abstraction(a) => {
            proof {
                use_type_invariant(a);
            }
            let bound = copy_node(&a.bound);
            let body = copy_node(&a.body);
            Node::Abstraction(AbstractionNode { bound: Box::new(bound), body: Box::new(body), span: a.span })
        },
        Node::Application(p) => {
            let left = copy_node(&p.left);
            let right = copy_node(&p.right);
            Node::Application(ApplicationNode { left: Box::new(left), right: Box::new(right), span: p.span })
        },
    }
}

/// Whether `a` and `b` are equal as `node_same` defines it.
pub fn nodes_equal(a: &Node, b: &Node) -> (r: bool)
    ensures
        r == node_same(a@, b@),
    decreases a,
{
    match (a, b) {
        (Node::Variable(x), Node::Variable(y)) => x.same_as(y),
        (Node::Abstraction(x), Node::Abstraction(y)) => {
            nodes_equal(&x.bound, &y.bound) && nodes_equal(&x.body, &y.body) && x.span == y.span
        },
        (Node::Application(x), Node::Application(y)) => {
            nodes_equal(&x.left, &y.left) && nodes_equal(&x.right, &y.right) && x.span == y.span
        },
        _ => false,
    }
}

impl Clone for Node {
    fn clone(&self) -> (r: Self)
        ensures
            r == *self,
    {
        copy_node(self)
    }
}

impl PartialEq for Node {
    fn eq(&self, other: &Node) -> (r: bool) {
        nodes_equal(self, other)
    }
}

impl vstd::std_specs::cmp::PartialEqSpecImpl for Node {
    open spec fn obeys_eq_spec() -> bool {
        true
    }

    open spec fn eq_spec(&self, other: &Node) -> bool {
        node_same(self@, other@)
    }
}

impl Clone for AbstractionNode {
    fn clone(&self) -> (r: Self)
        ensures
            r == *self,
    {
        proof {
            use_type_invariant(self);
        }
        AbstractionNode {
            bound: Box::new(copy_node(&self.bound)),
            body: Box::new(copy_node(&self.body)),
            span: self.span,
        }
    }
}

impl PartialEq for AbstractionNode {
    fn eq(&self, other: &AbstractionNode) -> (r: bool) {
        nodes_equal(&self.bound, &other.bound) && nodes_equal(&self.body, &other.body) && self.span
            == other.span
    }
}

impl vstd::std_specs::cmp::PartialEqSpecImpl for AbstractionNode {
    open spec fn obeys_eq_spec() -> bool {
        true
    }

    open spec fn eq_spec(&self, other: &AbstractionNode) -> bool {
        node_same(NodeV::Abstraction(self@), NodeV::Abstraction(other@))
    }
}

impl ApplicationNode {
    pub fn new(left: Node, right: Node, span: Span) -> (r: Self)
        ensures
            r@ == (AppV { left: Box::new(left@), right: Box::new(right@), span }),
    {
        ApplicationNode { left: Box::new(left), right: Box::new(right), span }
    }

    pub fn left(&self) -> (r: &Box<Node>)
        ensures
            r@ == *self@.left,
    {
        &self.left
    }

    pub fn right(&self) -> (r: &Box<Node>)
        ensures
            r@ == *self@.right,
    {
        &self.right
    }

    pub fn span(&self) -> (r: &Span)
        ensures
            *r == self@.span,
    {
        &self.span
    }
}

impl Node {
    /// The span of this expression.
    pub fn span(&self) -> (r: &Span)
        ensures
            *r == node_span(self@),
    {
        match self {
            Node::Variable(v) => &v.span,
            Node::Abstraction(a) => &a.span,
            Node::Application(p) => &p.span,
        }
    }

    pub fn is_variable(&self) -> (r: bool)
        ensures
            r == self@ is Variable,
    {
        matches!(self, Node::Variable(_))
    }

    pub fn is_abstraction(&self) -> (r: bool)
        ensures
            r == self@ is Abstraction,
    {
        matches!(self, Node::Abstraction(_))
    }

    pub fn is_application(&self) -> (r: bool)
        ensures
            r == self@ is Application,
    {
        matches!(self, Node::Application(_))
    }
}

impl Clone for ApplicationNode {
    fn clone(&self) -> (r: Self)
        ensures
            r == *self,
    {
        ApplicationNode {
            left: Box::new(copy_node(&self.left)),
            right: Box::new(copy_node(&self.right)),
            span: self.span,
        }
    }
}

impl PartialEq for ApplicationNode {
    fn eq(&self, other: &ApplicationNode) -> (r: bool) {
        nodes_equal(&self.left, &other.left) && nodes_equal(&self.right, &other.right) && self.span
            == other.span
    }
}

impl vstd::std_specs::cmp::PartialEqSpecImpl for ApplicationNode {
    open spec fn obeys_eq_spec() -> bool {
        true
    }

    open spec fn eq_spec(&self, other: &ApplicationNode) -> bool {
        node_same(NodeV::Application(self@), NodeV::Application(other@))
    }
}

/// The text of a variable: `x`, `x_1` for a one-byte subscript,
/// `x_{sub}` otherwise.
pub open spec fn var_text(v: VarV) -> Seq<char> {
    match v.subscript {
        Some(sub) => if vstd::utf8::encode_utf8(sub).len() == 1 {
            v.ident + seq!['_'] + sub
        } else {
            v.ident + seq!['_', '{'] + sub + seq!['}']
        },
        None => v.ident,
    }
}

/// The text of a lambda expression.
pub open spec fn node_text(n: NodeV) -> Seq<char>
    decreases n,
{
    match n {
        NodeV::Variable(v) => var_text(v),
        NodeV::Abstraction(a) => seq!['λ'] + node_text(*a.bound) + seq!['.'] + node_text(*a.body),
        NodeV::Application(p) => {
            let l = node_text(*p.left);
            let r = node_text(*p.right);
            match (*p.left, *p.right) {
                (NodeV::Variable(_), NodeV::Variable(_)) => seq!['('] + l + seq![')', '('] + r + seq![')'],
                (_, NodeV::Variable(_)) => seq!['('] + l + seq![')'] + r,
                (NodeV::Variable(_), _) => l + seq!['('] + r + seq![')'],
                (NodeV::Application(_), NodeV::Application(_)) | (
                    NodeV::Abstraction(_),
                    NodeV::Abstraction(_),
                ) => seq!['('] + l + seq![')', '('] + r + seq![')'],
                _ => seq!['('] + l + r + seq![')'],
            }
        },
    }
}

/// A text is one byte long exactly when it is one ASCII character.
pub proof fn lemma_byte_len_one(s: Seq<char>)
    ensures
        (byte_len(s) == 1) == (s.len() == 1 && (s[0] as u32) < 128),
        byte_len(s) == 0 <==> s.len() == 0,
{
    lemma_encode_len(s);
    if s.len() == 1 {
        assert(s.drop_first() =~= Seq::<char>::empty());
        assert(vstd::utf8::encode_utf8(s) == vstd::utf8::encode_scalar(s[0] as u32) + vstd::utf8::encode_utf8(
            s.drop_first(),
        ));
    }
}

/// Number of bytes in the UTF-8 encoding of `cs[lo..hi]`.
pub fn window_byte_len(cs: &Vec<char>, lo: usize, hi: usize) -> (r: usize)
    requires
        lo <= hi <= cs@.len(),
        4 * (hi - lo) <= usize::MAX,
    ensures
        r == byte_len(cs@.subrange(lo as int, hi as int)),
        hi - lo <= r <= 4 * (hi - lo),
{
    let s = crate::text::string_from_chars(cs, lo, hi);
    proof {
        lemma_encode_len(s@);
    }
    str_byte_len(s.as_str())
}

/// The position of the character that starts at byte `b` of the UTF-8
/// encoding of `s` (the length of `s` when `b` is the encoding's length),
/// or `None` when byte `b` falls inside a character or past the end: what
/// cutting a `str` at byte `b` finds.
pub open spec fn char_at_byte(s: Seq<char>, b: int) -> Option<int>
    decreases s.len(),
{
    if b == 0 {
        Some(0)
    } else if b < 0 || s.len() == 0 || b < byte_len(seq![s[0]]) {
        None
    } else {
        match char_at_byte(s.drop_first(), b - byte_len(seq![s[0]])) {
            Some(p) => Some(p + 1),
            None => None,
        }
    }
}

/// The encoding of a text is that of its first character followed by that
/// of the rest.
pub proof fn lemma_byte_len_front(s: Seq<char>)
    requires
        s.len() > 0,
    ensures
        byte_len(s) == byte_len(seq![s[0]]) + byte_len(s.drop_first()),
        1 <= byte_len(seq![s[0]]) <= 4,
{
    let one = seq![s[0]];
    assert(one.drop_first() =~= Seq::<char>::empty());
    assert(vstd::utf8::encode_utf8(one) == vstd::utf8::encode_scalar(s[0] as u32) + vstd::utf8::encode_utf8(
        one.drop_first(),
    ));
    lemma_encode_len(one);
}

/// The character position that `char_at_byte` finds is no more than the
/// byte offset and no less than a quarter of it.
proof fn lemma_char_at_byte_len(s: Seq<char>, b: int)
    ensures
        char_at_byte(s, b) matches Some(p) ==> p <= b <= 4 * p && 0 <= p <= s.len(),
    decreases s.len(),
{
    if b > 0 && s.len() > 0 {
        lemma_byte_len_front(s);
        let w = byte_len(seq![s[0]]);
        if b >= w {
            lemma_char_at_byte_len(s.drop_first(), b - w);
        }
    }
}

/// What `char_at_byte` finds is a character position whose prefix takes
/// exactly `b` bytes.
pub proof fn lemma_char_at_byte(s: Seq<char>, b: int)
    ensures
        char_at_byte(s, b) matches Some(p) ==> 0 <= p <= s.len() && byte_len(s.take(p)) == b && p <= b <= 4 * p,
    decreases s.len(),
{
    if let Some(p) = char_at_byte(s, b) {
        lemma_char_at_byte_len(s, b);
    }

    if b == 0 {
        assert(s.take(0) =~= Seq::<char>::empty());
    } else if b > 0 && s.len() > 0 {
        lemma_byte_len_front(s);
        let w = byte_len(seq![s[0]]);
        if b >= w {
            lemma_char_at_byte(s.drop_first(), b - w);
            if let Some(q) = char_at_byte(s.drop_first(), b - w) {
                let t = s.take(q + 1);
                assert(t[0] == s[0]);
                assert(t.drop_first() =~= s.drop_first().take(q));
                lemma_byte_len_front(t);
            }
        }
    }
}

/// On a text whose first `k` characters are ASCII, byte `b` up to `k`
/// starts character `b`.
pub proof fn lemma_char_at_byte_ascii(s: Seq<char>, k: int, b: int)
    requires
        0 <= b <= k <= s.len(),
        forall|i: int| 0 <= i < k ==> (#[trigger] s[i] as u32) < 128,
    ensures
        char_at_byte(s, b) == Some(b),
    decreases b,
{
    if b > 0 {
        lemma_byte_len_one(seq![s[0]]);
        assert(forall|i: int| 0 <= i < k - 1 ==> #[trigger] s.drop_first()[i] == s[i + 1]);
        lemma_char_at_byte_ascii(s.drop_first(), k - 1, b - 1);
    }
}

/// Number of bytes in the UTF-8 encoding of the character `c`.
pub fn char_byte_len(c: char) -> (r: usize)
    ensures
        r == byte_len(seq![c]),
        1 <= r <= 4,
{
    let mut t = String::new();
    crate::text::push_char(&mut t, c);
    assert(t@ =~= seq![c]);
    proof {
        lemma_encode_len(t@);
    }
    str_byte_len(t.as_str())
}

/// `char_at_byte` of `cs[lo..hi]`, as a position within that window.
pub fn char_at_byte_window(cs: &Vec<char>, lo: usize, hi: usize, b: usize) -> (r: Option<usize>)
    requires
        lo <= hi <= cs@.len(),
    ensures
        match char_at_byte(cs@.subrange(lo as int, hi as int), b as int) {
            Some(p) => r == Some(p as usize),
            None => r is None,
        },
{
    let ghost s = cs@.subrange(lo as int, hi as int);
    let mut p: usize = lo;
    let mut rest: usize = b;
    assert(s.skip(0) =~= s);
    while rest > 0 && p < hi
        invariant
            lo <= p <= hi <= cs@.len(),
            s == cs@.subrange(lo as int, hi as int),
            char_at_byte(s, b as int) == (match char_at_byte(s.skip(p - lo), rest as int) {
                Some(q) => Some(q + (p - lo)),
                None => None::<int>,
            }),
        decreases hi - p,
    {
        let ghost t = s.skip(p - lo);
        assert(t[0] == cs@[p as int]);
        let w = char_byte_len(cs[p]);
        if rest < w {
            return None;
        }
        assert(t.drop_first() =~= s.skip(p + 1 - lo));
        rest = rest - w;
        p = p + 1;
    }
    if rest == 0 {
        Some(p - lo)
    } else {
        assert(s.skip(p - lo) =~= Seq::<char>::empty());
        None
    }
}

/// A UTF-8 encoding takes one to four bytes per character.
pub proof fn lemma_encode_len(s: Seq<char>)
    ensures
        s.len() <= vstd::utf8::encode_utf8(s).len() <= 4 * s.len(),
    decreases s.len(),
{
    if s.len() > 0 {
        lemma_encode_len(s.drop_first());
    }
}

/// Whether the UTF-8 encoding of `s` is a single byte.
pub fn is_one_byte(s: &str) -> (r: bool)
    ensures
        r == (vstd::utf8::encode_utf8(s@).len() == 1),
{
    let cs = crate::text::chars_of(s);
    proof {
        lemma_encode_len(s@);
    }
    if cs.len() == 1 {
        let c = cs[0];
        assert(vstd::utf8::encode_utf8(s@) == vstd::utf8::encode_scalar(c as u32) + vstd::utf8::encode_utf8(
            s@.drop_first(),
        ));
        assert(s@.drop_first().len() == 0);
        assert(vstd::utf8::encode_utf8(s@.drop_first()) == Seq::<u8>::empty());
        (c as u32) < 0x80
    } else {
        false
    }
}

/// Appends the text of `v` to `out`.
pub fn write_variable(v: &VariableNode, out: &mut String)
    ensures
        final(out)@ == old(out)@ + var_text(v@),
{
    let ghost o = out@;
    append_str(out, v.ident.as_str());
    match &v.subscript {
        Some(sub) => {
            if is_one_byte(sub.as_str()) {
                push_char(out, '_');
                append_str(out, sub.as_str());
                assert(out@ == o + (v@.ident + seq!['_'] + sub@));
            } else {
                push_char(out, '_');
                push_char(out, '{');
                append_str(out, sub.as_str());
                push_char(out, '}');
                assert(out@ == o + (v@.ident + seq!['_', '{'] + sub@ + seq!['}']));
            }
        },
        None => {},
    }
}

/// Appends the text of `n` to `out`.
pub fn write_node(n: &Node, out: &mut String)
    ensures
        final(out)@ == old(out)@ + node_text(n@),
    decreases n,
{
    match n {
        Node::Variable(v) => write_variable(v, out),
        Node::Abstraction(a) => {
            push_char(out, 'λ');
            write_node(&a.bound, out);
            push_char(out, '.');
            write_node(&a.body, out);
        },
        Node::Application(p) => {
            let lv = match &*p.left {
                Node::Variable(_) => 0u8,
                Node::Abstraction(_) => 1u8,
                Node::Application(_) => 2u8,
            };
            let rv = match &*p.right {
                Node::Variable(_) => 0u8,
                Node::Abstraction(_) => 1u8,
                Node::Application(_) => 2u8,
            };
            if lv == 0 && rv == 0 || lv == rv {
                push_char(out, '(');
                write_node(&p.left, out);
                push_char(out, ')');
                push_char(out, '(');
                write_node(&p.right, out);
                push_char(out, ')');
            } else if rv == 0 {
                push_char(out, '(');
                write_node(&p.left, out);
                push_char(out, ')');
                write_node(&p.right, out);
            } else if lv == 0 {
                write_node(&p.left, out);
                push_char(out, '(');
                write_node(&p.right, out);
                push_char(out, ')');
            } else {
                push_char(out, '(');
                write_node(&p.left, out);
                write_node(&p.right, out);
                push_char(out, ')');
            }
        },
    }
}

impl VariableNode {
    /// The text of this variable.
    pub fn to_string(&self) -> (r: String)
        ensures
            r@ == var_text(self@),
    {
        let mut s = String::new();
        write_variable(self, &mut s);
        s
    }
}

impl Node {
    /// The text of this expression.
    pub fn to_string(&self) -> (r: String)
        ensures
            r@ == node_text(self@),
    {
        let mut s = String::new();
        write_node(self, &mut s);
        s
    }
}

impl AbstractionNode {
    /// The text of this abstraction (`λbound.body`).
    pub fn to_string(&self) -> (r: String)
        ensures
            r@ == seq!['λ'] + node_text(*self@.bound) + seq!['.'] + node_text(*self@.body),
    {
        let mut s = String::new();
        push_char(&mut s, 'λ');
        write_node(&self.bound, &mut s);
        push_char(&mut s, '.');
        write_node(&self.body, &mut s);
        s
    }
}

impl ApplicationNode {
    /// The text of this application.
    pub fn to_string(&self) -> (r: String)
        ensures
            r@ == node_text(NodeV::Application(self@)),
    {
        let n = Node::Application(self.clone());
        n.to_string()
    }
}

} // verus!
