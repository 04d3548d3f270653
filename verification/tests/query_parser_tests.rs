use sqlplan::parse_tree::{
    ColumnIdentifier, ColumnStatement, FromStatement, Function, InsertQuery, Literal, Queries,
    Query, SelectQuery, SelectStatement, TableStatement,
};
use sqlplan::query_parser::parse_columns;

fn col(name: &str) -> ColumnStatement {
    ColumnStatement::ColumnStatementIdentifier(ColumnIdentifier {
        table_name: None,
        column_name: name.to_string(),
    })
}

fn select_query(columns: Vec<ColumnStatement>, table: &str) -> SelectQuery {
    SelectQuery {
        select_statement: SelectStatement { columns, distinct: false },
        from_statement: FromStatement {
            tables: vec![TableStatement { table_name: table.to_string(), alias: None }],
            joins: vec![],
        },
        where_statement: None,
        order_by_statement: None,
        group_by_statement: None,
        having_statement: None,
        limit_statement: None,
    }
}

#[test]
fn mod_test_select() {
    let (remainder, queries) = Queries::parse("select col1, col2 from table1;").unwrap();

    assert_eq!(remainder, "");
    assert_eq!(
        queries,
        Queries {
            queries: vec![Query::Select(select_query(vec![col("col1"), col("col2")], "table1"))]
        }
    );
}

#[test]
fn mod_test_insert() {
    let (remainder, insert_query) =
        Queries::parse("insert into table1 (col1, col2) values (1, valStr);").unwrap();

    assert_eq!(remainder, "");
    assert_eq!(
        insert_query,
        Queries {
            queries: vec![Query::Insert(InsertQuery {
                table_name: "table1".to_string(),
                columns: vec!["col1".to_string(), "col2".to_string()],
                values: vec![Literal::Integer(1), Literal::String("valStr".to_string())],
            })]
        }
    );
}

#[test]
fn insert_parser_test_insert() {
    let (remainder, insert_query) =
        InsertQuery::parse("insert into table1 (col1, col2) values (1, valStr);").unwrap();

    assert_eq!(remainder, "");
    assert_eq!(
        insert_query,
        InsertQuery {
            table_name: "table1".to_string(),
            columns: vec!["col1".to_string(), "col2".to_string()],
            values: vec![Literal::Integer(1), Literal::String("valStr".to_string())],
        }
    );
}

#[test]
fn select_parser_test_select() {
    let (remainder, queries) = SelectQuery::parse("select col1, col2 from table1;").unwrap();

    assert_eq!(remainder, "");
    assert_eq!(queries, select_query(vec![col("col1"), col("col2")], "table1"));
}

#[test]
fn quoted_insert_value_equals_bare_value() {
    let (_, bare) = InsertQuery::parse("insert into t (c) values (valStr);").unwrap();
    let (_, quoted) = InsertQuery::parse("insert into t (c) values ('valStr');").unwrap();

    assert_eq!(bare.values, vec![Literal::String("valStr".to_string())]);
    assert_eq!(bare.values, quoted.values);
}

#[test]
fn select_prefix_is_never_routed_into_insert() {
    assert!(Query::parse("select nonsense").is_err());
}

#[test]
fn query_parse_picks_first_matching_alternative() {
    let (rem, q) = Query::parse("insert into t (c) values (2);").unwrap();
    assert_eq!(rem, "");
    assert_eq!(
        q,
        Query::Insert(InsertQuery {
            table_name: "t".to_string(),
            columns: vec!["c".to_string()],
            values: vec![Literal::Integer(2)],
        })
    );
}

#[test]
fn queries_accepts_double_separator() {
    let (rem, qs) = Queries::parse("select a from t;;select b from u;").unwrap();
    assert_eq!(rem, "");
    assert_eq!(qs.queries.len(), 2);
}

#[test]
fn queries_stops_without_separator() {
    let (rem, qs) = Queries::parse("select a from t;select b from u;").unwrap();
    assert_eq!(rem, "select b from u;");
    assert_eq!(qs.queries.len(), 1);
}

#[test]
fn literal_parses_integer_prefix() {
    let (rem, lit) = Literal::parse("123abc").unwrap();
    assert_eq!(lit, Literal::Integer(123));
    assert_eq!(rem, "abc");
}

#[test]
fn literal_parses_negative_integer() {
    let (rem, lit) = Literal::parse("-45;").unwrap();
    assert_eq!(lit, Literal::Integer(-45));
    assert_eq!(rem, ";");
}

#[test]
fn literal_parses_extreme_integers() {
    let (_, lo) = Literal::parse("-2147483648").unwrap();
    assert_eq!(lo, Literal::Integer(i32::MIN));
    let (_, hi) = Literal::parse("2147483647").unwrap();
    assert_eq!(hi, Literal::Integer(i32::MAX));
}

#[test]
fn literal_rejects_integer_overflow() {
    assert!(Literal::parse("2147483648").is_err());
    assert!(Literal::parse("-2147483649").is_err());
}

#[test]
fn literal_parses_quoted_string() {
    let (rem, lit) = Literal::parse("'abc' rest").unwrap();
    assert_eq!(lit, Literal::String("abc".to_string()));
    assert_eq!(rem, " rest");
}

#[test]
fn literal_rejects_unterminated_string() {
    assert!(Literal::parse("'abc").is_err());
}

#[test]
fn column_statement_prefers_identifier() {
    let (rem, c) = ColumnStatement::parse("count(x)").unwrap();
    assert_eq!(c, col("count"));
    assert_eq!(rem, "(x)");
}

#[test]
fn column_statement_falls_back_to_literal() {
    let (_, c) = ColumnStatement::parse("'lit'").unwrap();
    assert_eq!(c, ColumnStatement::ColumnStatementLiteral(Literal::String("lit".to_string())));
}

#[test]
fn function_parses_name_and_arguments() {
    let (rem, f) = Function::parse("max(a, b)").unwrap();
    assert_eq!(rem, "");
    assert_eq!(f.name, "max".to_string());
    assert_eq!(f.args, vec![col("a"), col("b")]);
}

#[test]
fn parse_columns_stops_at_close_paren() {
    let (rem, cols) = parse_columns("col1, col2) rest").unwrap();
    assert_eq!(cols, vec!["col1".to_string(), "col2".to_string()]);
    assert_eq!(rem, ") rest");
}

#[test]
fn table_statement_parses_bare_name() {
    let (rem, t) = TableStatement::parse("table1;").unwrap();
    assert_eq!(t, TableStatement { table_name: "table1".to_string(), alias: None });
    assert_eq!(rem, ";");
}

#[test]
fn select_statement_parses_column_list() {
    let (rem, st) = SelectStatement::parse("a, b from t").unwrap();
    assert_eq!(st.columns, vec![col("a"), col("b")]);
    assert!(!st.distinct);
    assert_eq!(rem, " from t");
}

#[test]
fn select_query_requires_terminator() {
    assert!(SelectQuery::parse("select col1 from table1").is_err());
}

#[test]
fn select_query_parses_table_list() {
    let (remainder, q) = SelectQuery::parse("select a from t, u;").unwrap();
    assert_eq!(remainder, "");
    assert_eq!(
        q.from_statement.tables,
        vec![
            TableStatement { table_name: "t".to_string(), alias: None },
            TableStatement { table_name: "u".to_string(), alias: None },
        ]
    );
}

#[test]
fn from_statement_parses_table_list_in_source_order() {
    let (remainder, f) = FromStatement::parse("t1, t2 rest").unwrap();
    assert_eq!(remainder, " rest");
    assert_eq!(
        f,
        FromStatement {
            tables: vec![
                TableStatement { table_name: "t1".to_string(), alias: None },
                TableStatement { table_name: "t2".to_string(), alias: None },
            ],
            joins: vec![],
        }
    );
}

#[test]
fn queries_parses_multi_table_select() {
    let (remainder, qs) = Queries::parse("select col1 from table1, table2;").unwrap();
    assert_eq!(remainder, "");
    match &qs.queries[0] {
        Query::Select(q) => {
            assert_eq!(q.from_statement.tables.len(), 2);
            assert_eq!(q.from_statement.tables[0].table_name, "table1".to_string());
            assert_eq!(q.from_statement.tables[1].table_name, "table2".to_string());
        }
        other => panic!("expected a select query, got {:?}", other),
    }
}

#[test]
fn query_error_comes_from_the_alternative_that_consumed_most() {
    let err = Query::parse("insert into t oops").unwrap_err();
    assert_eq!(err.pos, 14);
    assert_eq!(err.remainder, "oops".to_string());
}

#[test]
fn select_error_carries_the_unconsumed_remainder() {
    let err = SelectQuery::parse("select a frm t;").unwrap_err();
    assert_eq!(err.pos, 9);
    assert_eq!(err.remainder, "frm t;".to_string());
}
