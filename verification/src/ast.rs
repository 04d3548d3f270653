use vstd::prelude::*;
use crate::lexer::Token;

verus! {

/// Operator tag of an internal AST node. `Select`, `From` and `Comma` are the
/// tags the analyzer lowers; the remaining tags are declared grammar surface
/// with no construction path yet.
#[derive(Debug, PartialEq, Eq, Structural, Clone, Copy)]
pub enum Op {
    Select,
    From,
    Comma,
    Insert,
    Where,
    Join,
    Group,
    Sort,
    Limit,
    Distinct,
}

/// A tagged AST node: either an internal node (`op` set, ordered `children`)
/// or a terminal leaf (`literal` set, no children) — exactly one of the two,
/// captured by [`Node::wf`].
#[derive(Debug)]
pub struct Node {
    pub op: Option<Op>,
    pub children: Vec<Node>,
    pub literal: Option<Token>,
}

/// Mathematical shape of an AST node: an operator applied to a sequence of
/// subtrees, or a leaf carrying the text of its terminal token.
pub enum NodeV {
    Apply(Op, Seq<NodeV>),
    Leaf(Seq<char>),
}

pub open spec fn node_view(n: Node) -> NodeV
    decreases n,
    via node_view_dec
{
    match n.op {
        Some(o) => NodeV::Apply(o, nodes_view(n.children@)),
        None => NodeV::Leaf(
            match n.literal {
                Some(t) => t.text@,
                None => Seq::empty(),
            },
        ),
    }
}

#[via_fn]
proof fn node_view_dec(n: Node) {
    vstd::std_specs::vec::axiom_vec_decreases_to_view(n.children);
    assert(decreases_to!(n => n.children@));
}

pub open spec fn nodes_view(s: Seq<Node>) -> Seq<NodeV>
    decreases s,
    via nodes_view_dec
{
    if s.len() == 0 {
        Seq::empty()
    } else {
        seq![node_view(s[0])] + nodes_view(s.drop_first())
    }
}

#[via_fn]
proof fn nodes_view_dec(s: Seq<Node>) {
    if s.len() > 0 {
        vstd::seq::axiom_seq_index_decreases(s, 0);
        vstd::seq::axiom_seq_subrange_decreases(s, 1, s.len() as int);
        assert(s.drop_first() == s.subrange(1, s.len() as int));
    }
}

/// `nodes_view` is the element-wise image of `node_view`.
pub proof fn lemma_nodes_view_elems(s: Seq<Node>)
    ensures
        nodes_view(s).len() == s.len(),
        forall|i: int| 0 <= i < s.len() ==> nodes_view(s)[i] == node_view(#[trigger] s[i]),
    decreases s.len(),
{
    if s.len() > 0 {
        lemma_nodes_view_elems(s.drop_first());
        assert forall|i: int| 0 <= i < s.len() implies nodes_view(s)[i] == node_view(
            #[trigger] s[i],
        ) by {
            if i > 0 {
                assert(s.drop_first()[i - 1] == s[i]);
                assert(nodes_view(s)[i] == nodes_view(s.drop_first())[i - 1]);
            }
        }
    }
}

impl View for Node {
    type V = NodeV;

    open spec fn view(&self) -> NodeV {
        node_view(*self)
    }
}

impl Node {
    /// Exactly one of the two forms: an operator with children and no
    /// literal, or a childless leaf with a literal.
    pub open spec fn wf(self) -> bool
        decreases self,
        via Node::wf_dec
    {
        match self.op {
            Some(_) => self.literal is None && (forall|i: int|
                0 <= i < self.children@.len() ==> (#[trigger] self.children@[i]).wf()),
            None => self.literal is Some && self.children@.len() == 0,
        }
    }

    #[via_fn]
    proof fn wf_dec(self) {
        vstd::std_specs::vec::axiom_vec_decreases_to_view(self.children);
        assert(decreases_to!(self => self.children@));
        assert forall|i: int| 0 <= i < self.children@.len() implies
            decreases_to!(self => self.children@[i]) by {
            vstd::seq::axiom_seq_index_decreases(self.children@, i);
        }
    }

    pub fn internal(op: Op, children: Vec<Node>) -> (n: Node)
        ensures
            n@ == NodeV::Apply(op, nodes_view(children@)),
            (forall|i: int| 0 <= i < children@.len() ==> (#[trigger] children@[i]).wf())
                ==> n.wf(),
    {
        Node { op: Some(op), children, literal: None }
    }

    pub fn leaf(token: Token) -> (n: Node)
        ensures
            n@ == NodeV::Leaf(token.text@),
            n.wf(),
    {
        Node { op: None, children: Vec::new(), literal: Some(token) }
    }

    pub fn op(&self) -> (r: Option<Op>)
        ensures
            r == self.op,
    {
        self.op
    }

    pub fn children(&self) -> (r: &Vec<Node>)
        ensures
            r == &self.children,
    {
        &self.children
    }

    pub fn literal(&self) -> (r: Option<&Token>)
        ensures
            match r {
                Some(t) => self.literal == Some(*t),
                None => self.literal is None,
            },
    {
        self.literal.as_ref()
    }
}

} // verus!
