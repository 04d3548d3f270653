use sqlplan::analyzer::analyze;
use sqlplan::analyzer::Analyzer;
use sqlplan::analyzer::AnalysisError;
use sqlplan::analyzer::Column;
use sqlplan::analyzer::LogicalNode;
use sqlplan::analyzer::LogicalPlan;
use sqlplan::analyzer::Operator;
use sqlplan::analyzer::QueryError;
use sqlplan::analyzer::Table;
use sqlplan::ast::{Node, Op};
use sqlplan::lexer::{Lexer, Token, TokenKind};
use sqlplan::parser::Parser;

fn ident(text: &str) -> Token {
    Token { kind: TokenKind::Ident, text: text.to_string() }
}

fn column(name: &str) -> Column {
    sqlplan::analyzer::column(name)
}

fn table(name: &str) -> Table {
    sqlplan::analyzer::table(name)
}

fn projection(columns: Vec<Column>) -> Operator {
    sqlplan::analyzer::projection(columns)
}

fn read(t: Table) -> Operator {
    sqlplan::analyzer::read(t)
}

#[test]
fn simple_test() {
    let logical_plan = analyze("SELECT col1 FROM table1").unwrap();

    assert_eq!(
        logical_plan,
        LogicalPlan {
            root: LogicalNode {
                operator: projection(vec![column("col1")]),
                children: vec![LogicalNode {
                    operator: read(table("table1")),
                    children: vec![],
                }],
            }
        }
    )
}

#[test]
fn select_many_columns() {
    let logical_plan = analyze("SELECT col1, col2, col3 FROM table1").unwrap();

    assert_eq!(
        logical_plan,
        LogicalPlan {
            root: LogicalNode {
                operator: projection(vec![column("col1"), column("col2"), column("col3")]),
                children: vec![LogicalNode {
                    operator: read(table("table1")),
                    children: vec![],
                }],
            }
        }
    )
}

#[test]
fn select_many_tables() {
    let logical_plan = analyze("SELECT col1 FROM table1, table2").unwrap();

    assert_eq!(
        logical_plan,
        LogicalPlan {
            root: LogicalNode {
                operator: projection(vec![column("col1")]),
                children: vec![
                    LogicalNode { operator: read(table("table1")), children: vec![] },
                    LogicalNode { operator: read(table("table2")), children: vec![] },
                ],
            }
        }
    )
}

#[test]
fn analyze_twice_yields_equal_plans() {
    let lexer = Lexer::new("SELECT col1, col2 FROM table1, table2");
    let mut parser = Parser::new(lexer);
    let ast = parser.parse().unwrap();
    let analyzer = Analyzer::new();

    let first = analyzer.analyze(&ast).unwrap();
    let second = analyzer.analyze(&ast).unwrap();

    assert_eq!(first, second);
}

#[test]
fn bare_from_root_is_rejected() {
    let ast = Node::internal(Op::From, vec![Node::leaf(ident("table1"))]);
    let analyzer = Analyzer::new();

    assert_eq!(analyzer.analyze(&ast), Err(AnalysisError::UnsupportedRoot));
}

#[test]
fn unrecognized_root_is_rejected() {
    let ast = Node::internal(Op::Where, vec![Node::leaf(ident("x"))]);
    let analyzer = Analyzer::new();

    assert_eq!(analyzer.analyze(&ast), Err(AnalysisError::UnsupportedRoot));
}

#[test]
fn leaf_source_is_rejected() {
    let ast = Node::internal(Op::Select, vec![Node::leaf(ident("col1")), Node::leaf(ident("t"))]);
    let analyzer = Analyzer::new();

    assert_eq!(analyzer.analyze(&ast), Err(AnalysisError::UnsupportedSource));
}

#[test]
fn select_without_children_is_rejected() {
    let ast = Node::internal(Op::Select, vec![]);
    let analyzer = Analyzer::new();

    assert_eq!(analyzer.analyze(&ast), Err(AnalysisError::UnsupportedSource));
}

#[test]
fn non_comma_list_node_is_rejected() {
    let bad_list = Node::internal(Op::Where, vec![Node::leaf(ident("a")), Node::leaf(ident("b"))]);
    let from = Node::internal(Op::From, vec![Node::leaf(ident("t"))]);
    let ast = Node::internal(Op::Select, vec![bad_list, from]);
    let analyzer = Analyzer::new();

    assert_eq!(analyzer.analyze(&ast), Err(AnalysisError::UnsupportedListNode));
}

#[test]
fn right_nested_chain_flattens_in_source_order() {
    let chain = Node::internal(
        Op::Comma,
        vec![
            Node::leaf(ident("a")),
            Node::internal(Op::Comma, vec![Node::leaf(ident("b")), Node::leaf(ident("c"))]),
        ],
    );
    let from = Node::internal(Op::From, vec![Node::leaf(ident("t"))]);
    let ast = Node::internal(Op::Select, vec![chain, from]);
    let analyzer = Analyzer::new();

    let plan = analyzer.analyze(&ast).unwrap();
    assert_eq!(
        plan.root.operator,
        projection(vec![column("a"), column("b"), column("c")])
    );
}

#[test]
fn four_leaf_chain_flattens_to_four_columns() {
    let plan = analyze("SELECT a, b, c, d FROM t").unwrap();
    assert_eq!(
        plan.root.operator,
        projection(vec![column("a"), column("b"), column("c"), column("d")])
    );
}

#[test]
fn malformed_input_is_a_parse_error() {
    match analyze("SELECT col1 FROM") {
        Err(QueryError::Parse(_)) => {}
        other => panic!("expected a parse error, got {:?}", other),
    }
}

#[test]
fn lexer_reports_unmatched_input() {
    let mut lexer = Lexer::new("@oops");
    let err = lexer.next_token().unwrap_err();
    assert_eq!(err.pos, 0);
    assert_eq!(err.remainder, "@oops".to_string());
}

#[test]
fn lexer_classifies_keywords_case_sensitively() {
    let mut lexer = Lexer::new("SELECT SELECTx select");
    assert_eq!(lexer.next_token().unwrap().kind, TokenKind::Select);
    assert_eq!(lexer.next_token().unwrap().kind, TokenKind::Space);
    assert_eq!(lexer.next_token().unwrap().kind, TokenKind::Ident);
    assert_eq!(lexer.next_token().unwrap().kind, TokenKind::Space);
    assert_eq!(lexer.next_token().unwrap().kind, TokenKind::Ident);
}

#[test]
fn parser_rejects_lower_case_keyword_path() {
    let lexer = Lexer::new("select col1 from table1");
    let mut parser = Parser::new(lexer);
    let err = parser.parse().unwrap_err();
    assert_eq!(err.pos, 0);
    assert_eq!(err.remainder, "select col1 from table1".to_string());
}

#[test]
fn parser_accepts_trailing_semicolon() {
    let plan = analyze("SELECT col1 FROM table1;").unwrap();
    assert_eq!(plan.root.operator, projection(vec![column("col1")]));
}

#[test]
fn parser_rejects_trailing_garbage() {
    match analyze("SELECT col1 FROM table1 extra") {
        Err(QueryError::Parse(_)) => {}
        other => panic!("expected a parse error, got {:?}", other),
    }
}

#[test]
fn empty_input_is_a_parse_error() {
    match analyze("") {
        Err(QueryError::Parse(e)) => {
            assert_eq!(e.pos, 0);
            assert_eq!(e.remainder, "".to_string());
        }
        other => panic!("expected a parse error, got {:?}", other),
    }
}

#[test]
fn column_walker_appends_in_source_order() {
    let left_nested = Node::internal(
        Op::Comma,
        vec![
            Node::internal(Op::Comma, vec![Node::leaf(ident("a")), Node::leaf(ident("b"))]),
            Node::leaf(ident("c")),
        ],
    );
    let mut walker = sqlplan::analyzer::ColumnWalker::new();
    walker.walk(&Node::leaf(ident("z"))).unwrap();
    walker.walk(&left_nested).unwrap();
    assert_eq!(
        walker.columns,
        vec![column("z"), column("a"), column("b"), column("c")]
    );
}

#[test]
fn table_walker_flattens_either_nesting_direction() {
    let right_nested = Node::internal(
        Op::Comma,
        vec![
            Node::leaf(ident("t1")),
            Node::internal(Op::Comma, vec![Node::leaf(ident("t2")), Node::leaf(ident("t3"))]),
        ],
    );
    let mut walker = sqlplan::analyzer::TableWalker::new();
    walker.walk(&right_nested).unwrap();
    assert_eq!(walker.tables, vec![table("t1"), table("t2"), table("t3")]);
}

#[test]
fn walker_leaves_accumulator_unchanged_on_unsupported_tag() {
    let mut walker = sqlplan::analyzer::ColumnWalker::new();
    walker.walk(&Node::leaf(ident("a"))).unwrap();
    let bad = Node::internal(Op::From, vec![Node::leaf(ident("x"))]);
    assert_eq!(walker.walk(&bad), Err(AnalysisError::UnsupportedListNode));
    assert_eq!(walker.columns, vec![column("a")]);
}
