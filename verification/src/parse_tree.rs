use vstd::prelude::*;

verus! {

/// A sequence of parsed statements.
#[derive(Debug, PartialEq)]
pub struct Queries {
    pub queries: Vec<Query>,
}

/// One parsed statement. Only `Select` and `Insert` have a parsing path; the
/// remaining variants are declared grammar surface.
#[derive(Debug, PartialEq)]
pub enum Query {
    Select(SelectQuery),
    Insert(InsertQuery),
    Delete(DeleteQuery),
    Update(UpdateQuery),
    CreateTable(CreateTableQuery),
    DropTable(DropTableQuery),
    AlterTable(AlterTableQuery),
}

#[derive(Debug, PartialEq)]
pub struct SelectQuery {
    pub select_statement: SelectStatement,
    pub from_statement: FromStatement,
    pub where_statement: Option<WhereStatement>,
    pub order_by_statement: Option<OrderByStatement>,
    pub group_by_statement: Option<GroupByStatement>,
    pub having_statement: Option<HavingStatement>,
    pub limit_statement: Option<LimitStatement>,
}

/// An insert statement. Values carry their canonical typing: an integer
/// parses as an integer literal, a bare or quoted word as a string literal.
#[derive(Debug, PartialEq)]
pub struct InsertQuery {
    pub table_name: String,
    pub columns: Vec<String>,
    pub values: Vec<Literal>,
}

#[derive(Debug, PartialEq)]
pub struct DeleteQuery {
    pub table_name: String,
    pub where_statement: Option<WhereStatement>,
}

#[derive(Debug, PartialEq)]
pub struct UpdateQuery {
    pub table_name: String,
    pub set_statement: SetStatement,
    pub where_statement: Option<WhereStatement>,
}

#[derive(Debug, PartialEq)]
pub struct CreateTableQuery {
    pub table_name: String,
    pub columns: Vec<String>,
    pub constraints: Vec<String>,
}

#[derive(Debug, PartialEq)]
pub struct DropTableQuery {
    pub table_name: String,
}

#[derive(Debug, PartialEq)]
pub struct AlterTableQuery {
    pub table_name: String,
    pub action: String,
}

#[derive(Debug, PartialEq)]
pub struct SelectStatement {
    pub columns: Vec<ColumnStatement>,
    pub distinct: bool,
}

/// The source clause: tables, and joins that the grammar declares but never
/// populates.
#[derive(Debug, PartialEq)]
pub struct FromStatement {
    pub tables: Vec<TableStatement>,
    pub joins: Vec<JoinStatement>,
}

#[derive(Debug, PartialEq)]
pub struct TableStatement {
    pub table_name: String,
    pub alias: Option<String>,
}

#[derive(Debug, PartialEq)]
pub struct JoinStatement {
    pub table_name: String,
    pub join_type: String,
    pub on: Vec<Condition>,
}

#[derive(Debug, PartialEq)]
pub struct Condition {
    pub left: ColumnStatement,
    pub operator: Operator,
    pub right: ColumnStatement,
}

#[derive(Debug, PartialEq, Eq, Structural, Clone, Copy)]
pub enum Operator {
    Equal,
    NotEqual,
}

#[derive(Debug, PartialEq)]
pub struct WhereStatement {
    pub conditions: Vec<Condition>,
}

#[derive(Debug, PartialEq)]
pub struct OrderByStatement {
    pub columns: Vec<ColumnStatement>,
    pub order: Order,
}

#[derive(Debug, PartialEq, Eq, Structural, Clone, Copy)]
pub enum Order {
    Asc,
    Desc,
}

#[derive(Debug, PartialEq)]
pub struct GroupByStatement {
    pub columns: Vec<ColumnStatement>,
}

#[derive(Debug, PartialEq)]
pub struct HavingStatement {
    pub conditions: Vec<Condition>,
}

#[derive(Debug, PartialEq)]
pub struct LimitStatement {
    pub limit: i32,
}

#[derive(Debug, PartialEq)]
pub struct SetStatement {
    pub columns: Vec<String>,
}

/// A column position in a statement: a column identifier, a literal, or a
/// function call over further column statements.
#[derive(Debug)]
pub enum ColumnStatement {
    ColumnStatementIdentifier(ColumnIdentifier),
    ColumnStatementLiteral(Literal),
    ColumnStatementFunction(Function),
}

#[derive(Debug, PartialEq)]
pub struct ColumnIdentifier {
    pub table_name: Option<String>,
    pub column_name: String,
}

/// A literal value. The grammar populates only integers and strings.
#[derive(Debug, PartialEq)]
pub enum Literal {
    Integer(i32),
    String(String),
    Boolean(bool),
}

#[derive(Debug)]
pub struct Function {
    pub name: String,
    pub args: Vec<ColumnStatement>,
}

/// Mathematical value of a column identifier.
pub struct ColumnIdentifierV {
    pub table_name: Option<Seq<char>>,
    pub column_name: Seq<char>,
}

/// Mathematical value of a literal.
pub enum LiteralV {
    Integer(i32),
    String(Seq<char>),
    Boolean(bool),
}

/// Mathematical value of a function call.
pub struct FunctionV {
    pub name: Seq<char>,
    pub args: Seq<ColumnStatementV>,
}

/// Mathematical value of a column statement.
pub enum ColumnStatementV {
    Identifier(ColumnIdentifierV),
    Literal(LiteralV),
    Function(FunctionV),
}

/// Mathematical value of a table statement.
pub struct TableStatementV {
    pub table_name: Seq<char>,
    pub alias: Option<Seq<char>>,
}

pub open spec fn opt_text(o: Option<String>) -> Option<Seq<char>> {
    match o {
        Some(s) => Some(s@),
        None => None,
    }
}

pub open spec fn column_identifier_view(c: ColumnIdentifier) -> ColumnIdentifierV {
    ColumnIdentifierV { table_name: opt_text(c.table_name), column_name: c.column_name@ }
}

pub open spec fn literal_view(l: Literal) -> LiteralV {
    match l {
        Literal::Integer(i) => LiteralV::Integer(i),
        Literal::String(s) => LiteralV::String(s@),
        Literal::Boolean(b) => LiteralV::Boolean(b),
    }
}

pub open spec fn literals_view(ls: Seq<Literal>) -> Seq<LiteralV> {
    ls.map_values(|l: Literal| literal_view(l))
}

pub open spec fn strings_view(ss: Seq<String>) -> Seq<Seq<char>> {
    ss.map_values(|s: String| s@)
}

pub open spec fn table_statement_view(t: TableStatement) -> TableStatementV {
    TableStatementV { table_name: t.table_name@, alias: opt_text(t.alias) }
}

pub open spec fn table_statements_view(ts: Seq<TableStatement>) -> Seq<TableStatementV> {
    ts.map_values(|t: TableStatement| table_statement_view(t))
}

pub open spec fn column_statement_view(c: ColumnStatement) -> ColumnStatementV
    decreases c,
    via column_statement_view_dec
{
    match c {
        ColumnStatement::ColumnStatementIdentifier(ci) => ColumnStatementV::Identifier(
            column_identifier_view(ci),
        ),
        ColumnStatement::ColumnStatementLiteral(l) => ColumnStatementV::Literal(literal_view(l)),
        ColumnStatement::ColumnStatementFunction(f) => ColumnStatementV::Function(
            FunctionV { name: f.name@, args: column_statements_view(f.args@) },
        ),
    }
}

#[via_fn]
proof fn column_statement_view_dec(c: ColumnStatement) {
    if let ColumnStatement::ColumnStatementFunction(f) = c {
        assert(decreases_to!(c => c->ColumnStatementFunction_0));
        vstd::std_specs::vec::axiom_vec_decreases_to_view(f.args);
        assert(decreases_to!(f => f.args@));
    }
}

pub open spec fn column_statements_view(s: Seq<ColumnStatement>) -> Seq<ColumnStatementV>
    decreases s,
    via column_statements_view_dec
{
    if s.len() == 0 {
        Seq::empty()
    } else {
        seq![column_statement_view(s[0])] + column_statements_view(s.drop_first())
    }
}

#[via_fn]
proof fn column_statements_view_dec(s: Seq<ColumnStatement>) {
    if s.len() > 0 {
        vstd::seq::axiom_seq_index_decreases(s, 0);
        vstd::seq::axiom_seq_subrange_decreases(s, 1, s.len() as int);
        assert(s.drop_first() == s.subrange(1, s.len() as int));
    }
}

/// `column_statements_view` is the element-wise image of
/// `column_statement_view`.
pub proof fn lemma_column_statements_view_elems(s: Seq<ColumnStatement>)
    ensures
        column_statements_view(s).len() == s.len(),
        forall|i: int| 0 <= i < s.len() ==> column_statements_view(s)[i] == column_statement_view(
            #[trigger] s[i],
        ),
    decreases s.len(),
{
    if s.len() > 0 {
        lemma_column_statements_view_elems(s.drop_first());
        assert forall|i: int| 0 <= i < s.len() implies column_statements_view(s)[i]
            == column_statement_view(#[trigger] s[i]) by {
            if i > 0 {
                assert(s.drop_first()[i - 1] == s[i]);
                assert(column_statements_view(s)[i] == column_statements_view(s.drop_first())[i
                    - 1]);
            }
        }
    }
}

fn literal_eq(a: &Literal, b: &Literal) -> (r: bool)
    ensures
        r == (literal_view(*a) == literal_view(*b)),
{
    match a {
        Literal::Integer(x) => match b {
            Literal::Integer(y) => *x == *y,
            _ => false,
        },
        Literal::String(x) => match b {
            Literal::String(y) => *x == *y,
            _ => false,
        },
        Literal::Boolean(x) => match b {
            Literal::Boolean(y) => *x == *y,
            _ => false,
        },
    }
}

fn opt_string_eq(a: &Option<String>, b: &Option<String>) -> (r: bool)
    ensures
        r == (opt_text(*a) == opt_text(*b)),
{
    match a {
        Some(x) => match b {
            Some(y) => *x == *y,
            None => false,
        },
        None => match b {
            Some(_) => false,
            None => true,
        },
    }
}

fn column_identifier_eq(a: &ColumnIdentifier, b: &ColumnIdentifier) -> (r: bool)
    ensures
        r == (column_identifier_view(*a) == column_identifier_view(*b)),
{
    opt_string_eq(&a.table_name, &b.table_name) && a.column_name == b.column_name
}

fn column_statement_eq(a: &ColumnStatement, b: &ColumnStatement) -> (r: bool)
    ensures
        r == (column_statement_view(*a) == column_statement_view(*b)),
    decreases *a,
{
    match a {
        ColumnStatement::ColumnStatementIdentifier(x) => match b {
            ColumnStatement::ColumnStatementIdentifier(y) => column_identifier_eq(x, y),
            _ => false,
        },
        ColumnStatement::ColumnStatementLiteral(x) => match b {
            ColumnStatement::ColumnStatementLiteral(y) => literal_eq(x, y),
            _ => false,
        },
        ColumnStatement::ColumnStatementFunction(x) => match b {
            ColumnStatement::ColumnStatementFunction(y) => {
                proof {
                    lemma_column_statements_view_elems(x.args@);
                    lemma_column_statements_view_elems(y.args@);
                }
                if !(x.name == y.name) {
                    return false;
                }
                if x.args.len() != y.args.len() {
                    return false;
                }
                let mut i: usize = 0;
                while i < x.args.len()
                    invariant
                        i <= x.args@.len(),
                        x.args@.len() == y.args@.len(),
                        *a == ColumnStatement::ColumnStatementFunction(*x),
                        *b == ColumnStatement::ColumnStatementFunction(*y),
                        forall|k: int| 0 <= k < i ==> column_statement_view(
                            #[trigger] x.args@[k],
                        ) == column_statement_view(y.args@[k]),
                    decreases x.args@.len() - i,
                {
                    proof {
                        assert(decreases_to!(*a => a->ColumnStatementFunction_0));
                        vstd::std_specs::vec::axiom_vec_index_decreases(x.args, i as int);
                        assert(decreases_to!(*a => x.args[i as int]));
                    }
                    if !column_statement_eq(&x.args[i], &y.args[i]) {
                        proof {
                            lemma_column_statements_view_elems(x.args@);
                            lemma_column_statements_view_elems(y.args@);
                            assert(column_statements_view(x.args@)[i as int]
                                != column_statements_view(y.args@)[i as int]);
                        }
                        return false;
                    }
                    i = i + 1;
                }
                proof {
                    lemma_column_statements_view_elems(x.args@);
                    lemma_column_statements_view_elems(y.args@);
                    assert forall|k: int| 0 <= k < x.args@.len() implies column_statements_view(
                        x.args@,
                    )[k] == column_statements_view(y.args@)[k] by {
                        assert(column_statement_view(x.args@[k]) == column_statement_view(
                            y.args@[k],
                        ));
                    }
                    assert(column_statements_view(x.args@) =~= column_statements_view(y.args@));
                }
                true
            },
            _ => false,
        },
    }
}

impl PartialEq for ColumnStatement {
    fn eq(&self, other: &Self) -> (r: bool) {
        column_statement_eq(self, other)
    }
}

impl vstd::std_specs::cmp::PartialEqSpecImpl for ColumnStatement {
    open spec fn obeys_eq_spec() -> bool {
        true
    }

    open spec fn eq_spec(&self, other: &Self) -> bool {
        column_statement_view(*self) == column_statement_view(*other)
    }
}

} // verus!
