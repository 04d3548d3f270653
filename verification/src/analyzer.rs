use vstd::prelude::*;
use crate::ast::{Node, NodeV, Op, node_view, nodes_view, lemma_nodes_view_elems};
use crate::lexer::Lexer;
use crate::parser::{Parser, ParseError, parse_select};

verus! {

/// A name-only column reference, compared by structural equality.
#[derive(Debug, PartialEq, Eq)]
pub struct Column {
    pub name: String,
}

/// A name-only table reference, compared by structural equality.
#[derive(Debug, PartialEq, Eq)]
pub struct Table {
    pub name: String,
}

#[derive(Debug, PartialEq, Eq)]
pub struct ProjectionInfo {
    pub columns: Vec<Column>,
}

#[derive(Debug, PartialEq, Eq)]
pub struct ReadInfo {
    pub table: Table,
}

#[derive(Debug, PartialEq, Eq)]
pub struct FilterInfo {}

#[derive(Debug, PartialEq, Eq)]
pub struct JoinInfo {}

#[derive(Debug, PartialEq, Eq)]
pub struct GroupInfo {}

#[derive(Debug, PartialEq, Eq)]
pub struct SortInfo {}

#[derive(Debug, PartialEq, Eq)]
pub struct LimitInfo {}

#[derive(Debug, PartialEq, Eq)]
pub struct DistinctInfo {}

/// A relational operator of the logical plan. Only `Projection` and `Read`
/// have a construction path; the rest are declared placeholder variants.
#[derive(Debug, PartialEq, Eq)]
pub enum Operator {
    Projection(ProjectionInfo),
    Filter(FilterInfo),
    Read(ReadInfo),
    Join(JoinInfo),
    Group(GroupInfo),
    Sort(SortInfo),
    Limit(LimitInfo),
    Distinct(DistinctInfo),
}

/// A logical plan node: one operator and its ordered children.
#[derive(Debug)]
pub struct LogicalNode {
    pub operator: Operator,
    pub children: Vec<LogicalNode>,
}

/// A logical query plan: a single root logical node.
#[derive(Debug, PartialEq)]
pub struct LogicalPlan {
    pub root: LogicalNode,
}

/// Why lowering an AST failed.
#[derive(Debug, PartialEq, Eq, Structural, Clone, Copy)]
pub enum AnalysisError {
    /// The root of the AST is not a `Select` node.
    UnsupportedRoot,
    /// A node in source position is neither `Select` nor `From`, or a
    /// `Select`/`From` node is missing its mandatory child.
    UnsupportedSource,
    /// A node inside a column or table list is neither a binary comma node
    /// nor a leaf.
    UnsupportedListNode,
}

/// Mathematical value of a plan operator: `Projection` keeps its ordered
/// column names, `Read` its table name.
pub enum OperatorV {
    Projection(Seq<Seq<char>>),
    Filter,
    Read(Seq<char>),
    Join,
    Group,
    Sort,
    Limit,
    Distinct,
}

/// Mathematical shape of a logical plan node.
pub struct PlanNodeV {
    pub operator: OperatorV,
    pub children: Seq<PlanNodeV>,
}

pub open spec fn column_names(cs: Seq<Column>) -> Seq<Seq<char>> {
    cs.map_values(|c: Column| c.name@)
}

pub open spec fn table_names(ts: Seq<Table>) -> Seq<Seq<char>> {
    ts.map_values(|t: Table| t.name@)
}

pub open spec fn operator_view(o: Operator) -> OperatorV {
    match o {
        Operator::Projection(p) => OperatorV::Projection(column_names(p.columns@)),
        Operator::Filter(_) => OperatorV::Filter,
        Operator::Read(r) => OperatorV::Read(r.table.name@),
        Operator::Join(_) => OperatorV::Join,
        Operator::Group(_) => OperatorV::Group,
        Operator::Sort(_) => OperatorV::Sort,
        Operator::Limit(_) => OperatorV::Limit,
        Operator::Distinct(_) => OperatorV::Distinct,
    }
}

pub open spec fn plan_node_view(n: LogicalNode) -> PlanNodeV
    decreases n,
    via plan_node_view_dec
{
    PlanNodeV { operator: operator_view(n.operator), children: plan_nodes_view(n.children@) }
}

#[via_fn]
proof fn plan_node_view_dec(n: LogicalNode) {
    vstd::std_specs::vec::axiom_vec_decreases_to_view(n.children);
    assert(decreases_to!(n => n.children@));
}

pub open spec fn plan_nodes_view(s: Seq<LogicalNode>) -> Seq<PlanNodeV>
    decreases s,
    via plan_nodes_view_dec
{
    if s.len() == 0 {
        Seq::empty()
    } else {
        seq![plan_node_view(s[0])] + plan_nodes_view(s.drop_first())
    }
}

#[via_fn]
proof fn plan_nodes_view_dec(s: Seq<LogicalNode>) {
    if s.len() > 0 {
        vstd::seq::axiom_seq_index_decreases(s, 0);
        vstd::seq::axiom_seq_subrange_decreases(s, 1, s.len() as int);
        assert(s.drop_first() == s.subrange(1, s.len() as int));
    }
}

/// `plan_nodes_view` is the element-wise image of `plan_node_view`.
pub proof fn lemma_plan_nodes_view_elems(s: Seq<LogicalNode>)
    ensures
        plan_nodes_view(s).len() == s.len(),
        forall|i: int| 0 <= i < s.len() ==> plan_nodes_view(s)[i] == plan_node_view(
            #[trigger] s[i],
        ),
    decreases s.len(),
{
    if s.len() > 0 {
        lemma_plan_nodes_view_elems(s.drop_first());
        assert forall|i: int| 0 <= i < s.len() implies plan_nodes_view(s)[i] == plan_node_view(
            #[trigger] s[i],
        ) by {
            if i > 0 {
                assert(s.drop_first()[i - 1] == s[i]);
                assert(plan_nodes_view(s)[i] == plan_nodes_view(s.drop_first())[i - 1]);
            }
        }
    }
}

impl View for LogicalNode {
    type V = PlanNodeV;

    open spec fn view(&self) -> PlanNodeV {
        plan_node_view(*self)
    }
}

impl View for LogicalPlan {
    type V = PlanNodeV;

    open spec fn view(&self) -> PlanNodeV {
        plan_node_view(self.root)
    }
}

/// A comma-chain: a leaf, or a binary comma node over two comma-chains.
pub open spec fn chain_ok(n: NodeV) -> bool
    decreases n,
    via chain_ok_dec
{
    match n {
        NodeV::Leaf(_) => true,
        NodeV::Apply(o, cs) => o == Op::Comma && cs.len() == 2 && chain_ok(cs[0]) && chain_ok(
            cs[1],
        ),
    }
}

#[via_fn]
proof fn chain_ok_dec(n: NodeV) {
    if let NodeV::Apply(o, cs) = n {
        assert(decreases_to!(n => cs));
        if cs.len() == 2 {
            vstd::seq::axiom_seq_index_decreases(cs, 0);
            vstd::seq::axiom_seq_index_decreases(cs, 1);
        }
    }
}

/// The leaf names of a comma-chain, in left-to-right source order.
pub open spec fn chain_names(n: NodeV) -> Seq<Seq<char>>
    decreases n,
    via chain_names_dec
{
    match n {
        NodeV::Leaf(t) => seq![t],
        NodeV::Apply(o, cs) => {
            if o == Op::Comma && cs.len() == 2 {
                chain_names(cs[0]) + chain_names(cs[1])
            } else {
                Seq::empty()
            }
        },
    }
}

#[via_fn]
proof fn chain_names_dec(n: NodeV) {
    if let NodeV::Apply(o, cs) = n {
        assert(decreases_to!(n => cs));
        if cs.len() == 2 {
            vstd::seq::axiom_seq_index_decreases(cs, 0);
            vstd::seq::axiom_seq_index_decreases(cs, 1);
        }
    }
}

/// The number of leaves of a comma-chain.
pub open spec fn chain_leaf_count(n: NodeV) -> nat
    decreases n,
    via chain_leaf_count_dec
{
    match n {
        NodeV::Leaf(_) => 1,
        NodeV::Apply(o, cs) => {
            if o == Op::Comma && cs.len() == 2 {
                chain_leaf_count(cs[0]) + chain_leaf_count(cs[1])
            } else {
                0
            }
        },
    }
}

#[via_fn]
proof fn chain_leaf_count_dec(n: NodeV) {
    if let NodeV::Apply(o, cs) = n {
        assert(decreases_to!(n => cs));
        if cs.len() == 2 {
            vstd::seq::axiom_seq_index_decreases(cs, 0);
            vstd::seq::axiom_seq_index_decreases(cs, 1);
        }
    }
}

/// Flattening a comma-chain of N leaves yields exactly N names, in
/// left-to-right source order, regardless of the chain's nesting direction.
pub proof fn lemma_chain_flatten_length(n: NodeV)
    requires
        chain_ok(n),
    ensures
        chain_names(n).len() == chain_leaf_count(n),
    decreases n,
{
    match n {
        NodeV::Leaf(_) => {},
        NodeV::Apply(o, cs) => {
            assert(decreases_to!(n => cs));
            vstd::seq::axiom_seq_index_decreases(cs, 0);
            vstd::seq::axiom_seq_index_decreases(cs, 1);
            lemma_chain_flatten_length(cs[0]);
            lemma_chain_flatten_length(cs[1]);
        },
    }
}

/// The AST shapes `Analyzer::walk` lowers: a `Select` node whose first child
/// is a column chain and whose last child lowers in turn, or a `From` node
/// whose first child is a table chain.
pub open spec fn walk_ok(n: NodeV) -> bool
    decreases n,
    via walk_ok_dec
{
    match n {
        NodeV::Leaf(_) => false,
        NodeV::Apply(o, cs) => {
            if o == Op::Select {
                cs.len() >= 1 && chain_ok(cs[0]) && walk_ok(cs[cs.len() - 1])
            } else if o == Op::From {
                cs.len() >= 1 && chain_ok(cs[0])
            } else {
                false
            }
        },
    }
}

#[via_fn]
proof fn walk_ok_dec(n: NodeV) {
    if let NodeV::Apply(o, cs) = n {
        assert(decreases_to!(n => cs));
        if cs.len() >= 1 {
            vstd::seq::axiom_seq_index_decreases(cs, cs.len() - 1);
        }
    }
}

/// The logical nodes that lowering an AST node in source position yields.
pub open spec fn walk_nodes(n: NodeV) -> Seq<PlanNodeV>
    decreases n,
    via walk_nodes_dec
{
    match n {
        NodeV::Leaf(_) => Seq::empty(),
        NodeV::Apply(o, cs) => {
            if o == Op::Select && cs.len() >= 1 {
                seq![
                    PlanNodeV {
                        operator: OperatorV::Projection(chain_names(cs[0])),
                        children: walk_nodes(cs[cs.len() - 1]),
                    },
                ]
            } else if o == Op::From && cs.len() >= 1 {
                chain_names(cs[0]).map_values(
                    |t: Seq<char>| PlanNodeV { operator: OperatorV::Read(t), children: Seq::empty() },
                )
            } else {
                Seq::empty()
            }
        },
    }
}

#[via_fn]
proof fn walk_nodes_dec(n: NodeV) {
    if let NodeV::Apply(o, cs) = n {
        assert(decreases_to!(n => cs));
        if cs.len() >= 1 {
            vstd::seq::axiom_seq_index_decreases(cs, cs.len() - 1);
        }
    }
}

/// The error `Analyzer::walk` reports on the first unsupported shape it
/// meets, in traversal order.
pub open spec fn walk_err(n: NodeV) -> AnalysisError
    decreases n,
    via walk_err_dec
{
    match n {
        NodeV::Leaf(_) => AnalysisError::UnsupportedSource,
        NodeV::Apply(o, cs) => {
            if o == Op::Select {
                if cs.len() == 0 {
                    AnalysisError::UnsupportedSource
                } else if !chain_ok(cs[0]) {
                    AnalysisError::UnsupportedListNode
                } else {
                    walk_err(cs[cs.len() - 1])
                }
            } else if o == Op::From {
                if cs.len() == 0 {
                    AnalysisError::UnsupportedSource
                } else {
                    AnalysisError::UnsupportedListNode
                }
            } else {
                AnalysisError::UnsupportedSource
            }
        },
    }
}

#[via_fn]
proof fn walk_err_dec(n: NodeV) {
    if let NodeV::Apply(o, cs) = n {
        assert(decreases_to!(n => cs));
        if cs.len() >= 1 {
            vstd::seq::axiom_seq_index_decreases(cs, cs.len() - 1);
        }
    }
}

/// Whether an AST is accepted by `Analyzer::analyze`: its root must be a
/// `Select` node that lowers.
pub open spec fn analyze_ok(n: NodeV) -> bool {
    n matches NodeV::Apply(Op::Select, _) && walk_ok(n)
}

/// The plan root that analyzing an accepted AST yields.
pub open spec fn analyze_spec(n: NodeV) -> PlanNodeV {
    walk_nodes(n)[0]
}

/// The error analyzing a rejected AST yields.
pub open spec fn analyze_err(n: NodeV) -> AnalysisError {
    if !(n matches NodeV::Apply(Op::Select, _)) {
        AnalysisError::UnsupportedRoot
    } else {
        walk_err(n)
    }
}

/// An AST whose root is not a `Select` node is never analyzed into a plan.
pub proof fn lemma_non_select_root_rejected(n: NodeV)
    requires
        !(n matches NodeV::Apply(Op::Select, _)),
    ensures
        !analyze_ok(n),
{
}

/// Lowering is a function of the AST value alone: analyzing the same AST
/// twice yields structurally equal plans.
pub proof fn lemma_analyze_deterministic(a1: NodeV, a2: NodeV, p1: PlanNodeV, p2: PlanNodeV)
    requires
        a1 == a2,
        analyze_ok(a1),
        p1 == analyze_spec(a1),
        p2 == analyze_spec(a2),
    ensures
        p1 == p2,
{
}

fn column_list_eq(a: &Vec<Column>, b: &Vec<Column>) -> (r: bool)
    ensures
        r == (column_names(a@) == column_names(b@)),
{
    if a.len() != b.len() {
        proof {
            assert(column_names(a@).len() != column_names(b@).len());
        }
        return false;
    }
    let mut i: usize = 0;
    while i < a.len()
        invariant
            i <= a.len(),
            a@.len() == b@.len(),
            forall|k: int| 0 <= k < i ==> column_names(a@)[k] == column_names(b@)[k],
        decreases a.len() - i,
    {
        if !(a[i].name == b[i].name) {
            proof {
                assert(column_names(a@)[i as int] != column_names(b@)[i as int]);
            }
            return false;
        }
        i = i + 1;
    }
    proof {
        assert(column_names(a@) =~= column_names(b@));
    }
    true
}

fn operator_eq(a: &Operator, b: &Operator) -> (r: bool)
    ensures
        r == (operator_view(*a) == operator_view(*b)),
{
    match (a, b) {
        (Operator::Projection(x), Operator::Projection(y)) => column_list_eq(
            &x.columns,
            &y.columns,
        ),
        (Operator::Filter(_), Operator::Filter(_)) => true,
        (Operator::Read(x), Operator::Read(y)) => x.table.name == y.table.name,
        (Operator::Join(_), Operator::Join(_)) => true,
        (Operator::Group(_), Operator::Group(_)) => true,
        (Operator::Sort(_), Operator::Sort(_)) => true,
        (Operator::Limit(_), Operator::Limit(_)) => true,
        (Operator::Distinct(_), Operator::Distinct(_)) => true,
        _ => false,
    }
}

fn logical_node_eq(a: &LogicalNode, b: &LogicalNode) -> (r: bool)
    ensures
        r == (plan_node_view(*a) == plan_node_view(*b)),
    decreases *a,
{
    proof {
        lemma_plan_nodes_view_elems(a.children@);
        lemma_plan_nodes_view_elems(b.children@);
    }
    if !operator_eq(&a.operator, &b.operator) {
        return false;
    }
    if a.children.len() != b.children.len() {
        return false;
    }
    let mut i: usize = 0;
    while i < a.children.len()
        invariant
            i <= a.children@.len(),
            a.children@.len() == b.children@.len(),
            operator_view(a.operator) == operator_view(b.operator),
            forall|k: int| 0 <= k < i ==> plan_node_view(#[trigger] a.children@[k])
                == plan_node_view(b.children@[k]),
        decreases a.children@.len() - i,
    {
        proof {
            vstd::std_specs::vec::axiom_vec_index_decreases(a.children, i as int);
            assert(decreases_to!(*a => a.children[i as int]));
        }
        if !logical_node_eq(&a.children[i], &b.children[i]) {
            proof {
                lemma_plan_nodes_view_elems(a.children@);
                lemma_plan_nodes_view_elems(b.children@);
                assert(plan_nodes_view(a.children@)[i as int] != plan_nodes_view(
                    b.children@,
                )[i as int]);
            }
            return false;
        }
        i = i + 1;
    }
    proof {
        lemma_plan_nodes_view_elems(a.children@);
        lemma_plan_nodes_view_elems(b.children@);
        assert forall|k: int| 0 <= k < a.children@.len() implies plan_nodes_view(a.children@)[k]
            == plan_nodes_view(b.children@)[k] by {
            assert(plan_node_view(a.children@[k]) == plan_node_view(b.children@[k]));
        }
        assert(plan_nodes_view(a.children@) =~= plan_nodes_view(b.children@));
    }
    true
}

impl PartialEq for LogicalNode {
    fn eq(&self, other: &Self) -> (r: bool) {
        logical_node_eq(self, other)
    }
}

impl vstd::std_specs::cmp::PartialEqSpecImpl for LogicalNode {
    open spec fn obeys_eq_spec() -> bool {
        true
    }

    open spec fn eq_spec(&self, other: &Self) -> bool {
        plan_node_view(*self) == plan_node_view(*other)
    }
}

/// `post` carries `pre` unchanged as its prefix.
pub open spec fn seq_extends<T>(pre: Seq<T>, post: Seq<T>) -> bool {
    pre.len() <= post.len() && post.subrange(0, pre.len() as int) == pre
}

pub proof fn lemma_seq_extends_trans<T>(a: Seq<T>, b: Seq<T>, c: Seq<T>)
    requires
        seq_extends(a, b),
        seq_extends(b, c),
    ensures
        seq_extends(a, c),
{
    assert forall|k: int| 0 <= k < a.len() implies c.subrange(0, a.len() as int)[k] == a[k] by {
        assert(b.subrange(0, a.len() as int)[k] == a[k]);
        assert(c.subrange(0, b.len() as int)[k] == b[k]);
    }
    assert(c.subrange(0, a.len() as int) =~= a);
}

/// Accumulates the column names of a comma-chain in source order.
pub struct ColumnWalker {
    pub columns: Vec<Column>,
}

impl ColumnWalker {
    pub fn new() -> (r: Self)
        ensures
            r.columns@ == Seq::<Column>::empty(),
    {
        ColumnWalker { columns: Vec::new() }
    }

    /// Appends the chain's names to the accumulator. On a malformed list the
    /// names gathered before the failure stay, after what was already there.
    pub fn walk(&mut self, column_node: &Node) -> (r: Result<(), AnalysisError>)
        ensures
            (r matches Ok(())) <==> chain_ok(column_node@),
            chain_ok(column_node@) ==> column_names(final(self).columns@) == column_names(
                old(self).columns@,
            ) + chain_names(column_node@),
            r matches Err(e) ==> e == AnalysisError::UnsupportedListNode,
            seq_extends(old(self).columns@, final(self).columns@),
            (column_node@ matches NodeV::Apply(o, cs) && !(o == Op::Comma && cs.len() == 2))
                ==> final(self).columns == old(self).columns,
        decreases *column_node,
    {
        proof {
            lemma_nodes_view_elems(column_node.children@);
            assert(self.columns@.subrange(0, old(self).columns@.len() as int) =~= old(
                self,
            ).columns@);
        }
        match column_node.op() {
            Some(Op::Comma) => {
                if column_node.children().len() != 2 {
                    return Err(AnalysisError::UnsupportedListNode);
                }
                proof {
                    vstd::std_specs::vec::axiom_vec_index_decreases(column_node.children, 0);
                    vstd::std_specs::vec::axiom_vec_index_decreases(column_node.children, 1);
                    assert(decreases_to!(*column_node => column_node.children[0]));
                    assert(decreases_to!(*column_node => column_node.children[1]));
                }
                let ghost pre = self.columns@;
                match self.walk(&column_node.children()[0]) {
                    Ok(()) => {},
                    Err(e) => {
                        return Err(e);
                    },
                }
                let ghost mid = self.columns@;
                match self.walk(&column_node.children()[1]) {
                    Ok(()) => {},
                    Err(e) => {
                        proof {
                            lemma_seq_extends_trans(pre, mid, self.columns@);
                        }
                        return Err(e);
                    },
                }
                proof {
                    lemma_seq_extends_trans(pre, mid, self.columns@);
                    assert(column_names(self.columns@) =~= column_names(old(self).columns@)
                        + chain_names(column_node@));
                }
                Ok(())
            },
            None => {
                let name = match column_node.literal() {
                    Some(t) => t.get_first_name_as_string(),
                    None => String::new(),
                };
                self.columns.push(Column { name });
                proof {
                    assert(column_names(self.columns@) =~= column_names(old(self).columns@)
                        + chain_names(column_node@));
                    assert(self.columns@.subrange(0, old(self).columns@.len() as int) =~= old(
                        self,
                    ).columns@);
                }
                Ok(())
            },
            Some(_) => Err(AnalysisError::UnsupportedListNode),
        }
    }
}

/// Accumulates the table names of a comma-chain in source order.
pub struct TableWalker {
    pub tables: Vec<Table>,
}

impl TableWalker {
    pub fn new() -> (r: Self)
        ensures
            r.tables@ == Seq::<Table>::empty(),
    {
        TableWalker { tables: Vec::new() }
    }

    /// Appends the chain's names to the accumulator. On a malformed list the
    /// names gathered before the failure stay, after what was already there.
    pub fn walk(&mut self, table_node: &Node) -> (r: Result<(), AnalysisError>)
        ensures
            (r matches Ok(())) <==> chain_ok(table_node@),
            chain_ok(table_node@) ==> table_names(final(self).tables@) == table_names(
                old(self).tables@,
            ) + chain_names(table_node@),
            r matches Err(e) ==> e == AnalysisError::UnsupportedListNode,
            seq_extends(old(self).tables@, final(self).tables@),
            (table_node@ matches NodeV::Apply(o, cs) && !(o == Op::Comma && cs.len() == 2))
                ==> final(self).tables == old(self).tables,
        decreases *table_node,
    {
        proof {
            lemma_nodes_view_elems(table_node.children@);
            assert(self.tables@.subrange(0, old(self).tables@.len() as int) =~= old(
                self,
            ).tables@);
        }
        match table_node.op() {
            Some(Op::Comma) => {
                if table_node.children().len() != 2 {
                    return Err(AnalysisError::UnsupportedListNode);
                }
                proof {
                    vstd::std_specs::vec::axiom_vec_index_decreases(table_node.children, 0);
                    vstd::std_specs::vec::axiom_vec_index_decreases(table_node.children, 1);
                    assert(decreases_to!(*table_node => table_node.children[0]));
                    assert(decreases_to!(*table_node => table_node.children[1]));
                }
                let ghost pre = self.tables@;
                match self.walk(&table_node.children()[0]) {
                    Ok(()) => {},
                    Err(e) => {
                        return Err(e);
                    },
                }
                let ghost mid = self.tables@;
                match self.walk(&table_node.children()[1]) {
                    Ok(()) => {},
                    Err(e) => {
                        proof {
                            lemma_seq_extends_trans(pre, mid, self.tables@);
                        }
                        return Err(e);
                    },
                }
                proof {
                    lemma_seq_extends_trans(pre, mid, self.tables@);
                    assert(table_names(self.tables@) =~= table_names(old(self).tables@)
                        + chain_names(table_node@));
                }
                Ok(())
            },
            None => {
                let name = match table_node.literal() {
                    Some(t) => t.get_first_name_as_string(),
                    None => String::new(),
                };
                self.tables.push(Table { name });
                proof {
                    assert(table_names(self.tables@) =~= table_names(old(self).tables@)
                        + chain_names(table_node@));
                    assert(self.tables@.subrange(0, old(self).tables@.len() as int) =~= old(
                        self,
                    ).tables@);
                }
                Ok(())
            },
            Some(_) => Err(AnalysisError::UnsupportedListNode),
        }
    }
}

/// Lowers an AST into a logical query plan.
pub struct Analyzer {}

impl Analyzer {
    pub fn new() -> (r: Self) {
        Analyzer {  }
    }

    /// Lowers `ast` into a plan. Succeeds exactly on the ASTs `analyze_ok`
    /// accepts — the root must be a `Select` node of a supported shape — and
    /// reports the first unsupported shape otherwise.
    pub fn analyze(&self, ast: &Node) -> (r: Result<LogicalPlan, AnalysisError>)
        ensures
            (r matches Ok(p)) <==> analyze_ok(ast@),
            r matches Ok(p) ==> p@ == analyze_spec(ast@),
            r matches Err(e) ==> e == analyze_err(ast@),
    {
        match ast.op() {
            Some(Op::Select) => {
                match self.walk(ast) {
                    Ok(mut v) => {
                        proof {
                            lemma_plan_nodes_view_elems(v@);
                        }
                        let root = v.remove(0);
                        Ok(LogicalPlan { root })
                    },
                    Err(e) => Err(e),
                }
            },
            _ => Err(AnalysisError::UnsupportedRoot),
        }
    }

    /// Lowers one AST node in source position into the logical nodes it
    /// stands for: one `Projection` for a `Select`, one `Read` per table of a
    /// `From`.
    fn walk(&self, node: &Node) -> (r: Result<Vec<LogicalNode>, AnalysisError>)
        ensures
            (r matches Ok(v)) <==> walk_ok(node@),
            r matches Ok(v) ==> plan_nodes_view(v@) == walk_nodes(node@),
            r matches Err(e) ==> e == walk_err(node@),
        decreases *node,
    {
        proof {
            lemma_nodes_view_elems(node.children@);
        }
        match node.op() {
            Some(Op::Select) => {
                let n = node.children().len();
                if n == 0 {
                    return Err(AnalysisError::UnsupportedSource);
                }
                let columns = match self.build_columns(&node.children()[0]) {
                    Ok(c) => c,
                    Err(e) => {
                        return Err(e);
                    },
                };
                proof {
                    vstd::std_specs::vec::axiom_vec_index_decreases(node.children, n - 1);
                    assert(decreases_to!(*node => node.children[n - 1]));
                }
                let sub = match self.walk(&node.children()[n - 1]) {
                    Ok(s) => s,
                    Err(e) => {
                        return Err(e);
                    },
                };
                let mut v: Vec<LogicalNode> = Vec::new();
                v.push(
                    LogicalNode {
                        operator: Operator::Projection(ProjectionInfo { columns }),
                        children: sub,
                    },
                );
                proof {
                    lemma_plan_nodes_view_elems(v@);
                    assert(plan_nodes_view(v@) =~= walk_nodes(node@));
                }
                Ok(v)
            },
            Some(Op::From) => {
                if node.children().len() == 0 {
                    return Err(AnalysisError::UnsupportedSource);
                }
                let mut tables = match self.build_tables(&node.children()[0]) {
                    Ok(t) => t,
                    Err(e) => {
                        return Err(e);
                    },
                };
                let ghost all = tables@;
                let mut nodes: Vec<LogicalNode> = Vec::new();
                while tables.len() > 0
                    invariant
                        nodes@.len() + tables@.len() == all.len(),
                        tables@ == all.subrange(nodes@.len() as int, all.len() as int),
                        forall|i: int| 0 <= i < nodes@.len() ==> plan_node_view(
                            #[trigger] nodes@[i],
                        ) == (PlanNodeV {
                            operator: OperatorV::Read(table_names(all)[i]),
                            children: Seq::empty(),
                        }),
                    decreases tables@.len(),
                {
                    let ghost done = nodes@.len() as int;
                    let t = tables.remove(0);
                    proof {
                        assert(t == all[done]);
                    }
                    nodes.push(
                        LogicalNode { operator: Operator::Read(ReadInfo { table: t }), children: Vec::new() },
                    );
                    proof {
                        assert(tables@ =~= all.subrange(nodes@.len() as int, all.len() as int));
                    }
                }
                proof {
                    lemma_plan_nodes_view_elems(nodes@);
                    let cs = nodes_view(node.children@);
                    assert(node@ == NodeV::Apply(Op::From, cs));
                    assert(table_names(all) == chain_names(cs[0]));
                    assert forall|i: int| 0 <= i < nodes@.len() implies plan_nodes_view(nodes@)[i]
                        == walk_nodes(node@)[i] by {
                        assert(plan_node_view(nodes@[i]) == (PlanNodeV {
                            operator: OperatorV::Read(table_names(all)[i]),
                            children: Seq::empty(),
                        }));
                        assert(walk_nodes(node@)[i] == (PlanNodeV {
                            operator: OperatorV::Read(chain_names(cs[0])[i]),
                            children: Seq::empty(),
                        }));
                    }
                    assert(plan_nodes_view(nodes@) =~= walk_nodes(node@));
                }
                Ok(nodes)
            },
            _ => Err(AnalysisError::UnsupportedSource),
        }
    }

    /// Flattens the column-list subtree of a `Select` node.
    fn build_columns(&self, columns_node: &Node) -> (r: Result<Vec<Column>, AnalysisError>)
        ensures
            (r matches Ok(v)) <==> chain_ok(columns_node@),
            r matches Ok(v) ==> column_names(v@) == chain_names(columns_node@),
            r matches Err(e) ==> e == AnalysisError::UnsupportedListNode,
    {
        let mut column_walker = ColumnWalker::new();
        match column_walker.walk(columns_node) {
            Ok(()) => {
                proof {
                    assert(column_names(column_walker.columns@) =~= chain_names(columns_node@));
                }
                Ok(column_walker.columns)
            },
            Err(e) => Err(e),
        }
    }

    /// Flattens the table-list subtree of a `From` node.
    fn build_tables(&self, tables_node: &Node) -> (r: Result<Vec<Table>, AnalysisError>)
        ensures
            (r matches Ok(v)) <==> chain_ok(tables_node@),
            r matches Ok(v) ==> table_names(v@) == chain_names(tables_node@),
            r matches Err(e) ==> e == AnalysisError::UnsupportedListNode,
    {
        let mut table_walker = TableWalker::new();
        match table_walker.walk(tables_node) {
            Ok(()) => {
                proof {
                    assert(table_names(table_walker.tables@) =~= chain_names(tables_node@));
                }
                Ok(table_walker.tables)
            },
            Err(e) => Err(e),
        }
    }
}

/// Builds a name-only column reference.
pub fn column(name: &str) -> (c: Column)
    ensures
        c.name@ == name@,
{
    Column { name: name.to_owned() }
}

/// Builds a name-only table reference.
pub fn table(name: &str) -> (t: Table)
    ensures
        t.name@ == name@,
{
    Table { name: name.to_owned() }
}

/// Wraps ordered columns into a projection operator.
pub fn projection(columns: Vec<Column>) -> (o: Operator)
    ensures
        operator_view(o) == OperatorV::Projection(column_names(columns@)),
{
    Operator::Projection(ProjectionInfo { columns })
}

/// Wraps a table into a read operator.
pub fn read(table: Table) -> (o: Operator)
    ensures
        operator_view(o) == OperatorV::Read(table.name@),
{
    Operator::Read(ReadInfo { table })
}

/// A failure of the text-to-plan pipeline: either the input did not parse,
/// or its AST could not be lowered.
#[derive(Debug, PartialEq, Eq, Clone)]
pub enum QueryError {
    Parse(ParseError),
    Analysis(AnalysisError),
}

/// Runs the whole pipeline: lexes and parses `input` into an AST, then
/// lowers the AST into a logical plan. It succeeds exactly when the input
/// parses: every AST the parser yields is one the analyzer accepts, so the
/// analysis failure variant is never produced here.
pub fn analyze(input: &str) -> (r: Result<LogicalPlan, QueryError>)
    ensures
        (r matches Ok(p)) <==> parse_select(input@) is Some,
        r matches Ok(p) ==> parse_select(input@) matches Some(ast) && analyze_ok(ast) && p@
            == analyze_spec(ast),
        r matches Err(e) ==> parse_select(input@) is None && e matches QueryError::Parse(_),
{
    let lexer = Lexer::new(input);
    let mut parser = Parser::new(lexer);
    let ast = match parser.parse() {
        Ok(ast) => ast,
        Err(e) => {
            return Err(QueryError::Parse(e));
        },
    };
    proof {
        crate::parser::lemma_parsed_select_analyzable(input@, 0);
    }
    let analyzer = Analyzer::new();
    match analyzer.analyze(&ast) {
        Ok(plan) => Ok(plan),
        Err(e) => Err(QueryError::Analysis(e)),
    }
}

} // verus!
