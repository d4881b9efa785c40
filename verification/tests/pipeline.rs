use relalg::errors::{EvalError, IngestError, ParseError};
use relalg::ingest::{build_table, process_table_tokens};
use relalg::parser::{parse, Expr, TableStore};
use relalg::table::Table;
use relalg::tokenizer::{get_tokens, Token};

fn table(rows: &[&[&str]], types: &[&str]) -> Table {
    Table {
        rows: rows.iter().map(|r| r.iter().map(|v| v.to_string()).collect()).collect(),
        types: types.iter().map(|t| t.to_string()).collect(),
    }
}

fn store_with(entries: &[(&str, Table)]) -> TableStore {
    let mut store = TableStore::new();
    for (name, t) in entries {
        assert!(t.check_wf());
        store.insert(name.to_string(), t.clone());
    }
    store
}

fn run(text: &str, store: &TableStore) -> Result<Table, EvalError> {
    let mut tokens = get_tokens(text).unwrap();
    tokens.pop();  // strip the end-of-line sentinel
    let tree = parse(&tokens).unwrap();
    tree.eval(store)
}

fn sample_store() -> TableStore {
    let r = table(&[&["id", "name"], &["1", "Alice"], &["2", "Bob"]], &["Integer", "String"]);
    let s = table(&[&["sid", "dept"], &["1", "Eng"], &["3", "Ops"]], &["Integer", "String"]);
    store_with(&[("R", r), ("S", s)])
}

#[test]
fn select_statement_end_to_end() {
    let result = run("select id = 1 R", &sample_store()).unwrap();
    assert_eq!(result.render(), "id, name\n1, Alice\n");
}

#[test]
fn project_statement_end_to_end() {
    let result = run("project name R", &sample_store()).unwrap();
    assert_eq!(result.render(), "name\nAlice\nBob\n");
}

#[test]
fn select_over_project_applies_rightward() {
    // select <cond> project <list> T parses as select wrapping project
    let result = run("select name = \"Alice\" project name R", &sample_store()).unwrap();
    assert_eq!(result.render(), "name\nAlice\n");
}

#[test]
fn left_join_statement_end_to_end() {
    let result = run("R leftJoin id = sid S", &sample_store()).unwrap();
    assert_eq!(
        result.render(),
        "id, name, sid, dept\n1, Alice, 1, Eng\n2, Bob, Null, Null\n"
    );
}

#[test]
fn union_and_minus_statements() {
    let a = table(&[&["id"], &["1"], &["2"]], &["Integer"]);
    let b = table(&[&["id"], &["2"], &["3"]], &["Integer"]);
    let store = store_with(&[("A", a), ("B", b)]);
    assert_eq!(run("A union B", &store).unwrap().render(), "id\n1\n2\n3\n");
    assert_eq!(run("A - B", &store).unwrap().render(), "id\n1\n");
    assert_eq!(run("A intersect B", &store).unwrap().render(), "id\n2\n");
}

#[test]
fn product_and_division_statements() {
    let a = table(
        &[&["student", "course"], &["ann", "db"], &["ann", "os"], &["bob", "db"]],
        &["String", "String"],
    );
    let b = table(&[&["course"], &["db"], &["os"]], &["String"]);
    let store = store_with(&[("A", a), ("B", b)]);
    assert_eq!(run("A / B", &store).unwrap().render(), "student\nann\n");
    assert_eq!(run("B * B", &store).unwrap().render(), "course, course\ndb, db\ndb, os\nos, db\nos, os\n");
}

#[test]
fn grouping_in_expressions() {
    let a = table(&[&["id"], &["1"]], &["Integer"]);
    let store = store_with(&[("A", a)]);
    assert_eq!(run("(A union A)", &store).unwrap().render(), "id\n1\n");
}

#[test]
fn unknown_table_fails() {
    assert_eq!(
        run("select id = 1 T", &sample_store()).unwrap_err(),
        EvalError::UnknownTable("T".to_string())
    );
}

#[test]
fn plus_parses_but_does_not_evaluate() {
    assert_eq!(
        run("R + R", &sample_store()).unwrap_err(),
        EvalError::UnsupportedOperator(Token::Plus)
    );
}

#[test]
fn unary_minus_expression_does_not_evaluate() {
    assert_eq!(
        run("- R", &sample_store()).unwrap_err(),
        EvalError::UnsupportedOperator(Token::Minus)
    );
}

#[test]
fn non_symbol_literal_does_not_evaluate() {
    assert_eq!(
        run("42", &sample_store()).unwrap_err(),
        EvalError::UnsupportedLiteral(Token::Number("42".to_string()))
    );
}

#[test]
fn project_list_parses_multiple_names() {
    let result = run("project name, id R", &sample_store()).unwrap();
    assert_eq!(result.rows[0], vec!["id", "name"]);
}

#[test]
fn project_list_rejects_a_non_name() {
    let tokens = get_tokens("project name, 1 R").unwrap();
    assert_eq!(
        parse(&tokens).unwrap_err(),
        ParseError::ListNonSymbol(Token::Number("1".to_string()))
    );
}

#[test]
fn store_lookup_is_last_insertion() {
    let mut store = TableStore::new();
    let a = table(&[&["x"], &["1"]], &["Integer"]);
    let b = table(&[&["x"], &["2"]], &["Integer"]);
    store.insert("T".to_string(), a);
    store.insert("T".to_string(), b);
    let got = store.get(&"T".to_string()).unwrap();
    assert_eq!(got.rows[1], vec!["2"]);
    assert!(store.get(&"U".to_string()).is_none());
}

#[test]
fn table_definition_tokens_group_into_rows() {
    let line1 = get_tokens("R = {id, name").unwrap();
    let line2 = get_tokens("1, \"Alice\"").unwrap();
    let line3 = get_tokens("}").unwrap();
    let rows = process_table_tokens(vec![line1, line2, line3]).unwrap();
    assert_eq!(
        rows,
        vec![
            vec![Token::Symbol("id".to_string()), Token::Symbol("name".to_string())],
            vec![Token::Number("1".to_string()), Token::String("Alice".to_string())],
        ]
    );
}

#[test]
fn table_definition_rejects_an_operator_inside() {
    let line = get_tokens("{id > name}").unwrap();
    assert_eq!(
        process_table_tokens(vec![line]).unwrap_err(),
        IngestError::UnexpectedTableToken(Token::Greater)
    );
}

#[test]
fn build_table_infers_column_types() {
    let rows = vec![
        vec![Token::Symbol("id".to_string()), Token::Symbol("name".to_string())],
        vec![Token::Number("1".to_string()), Token::String("Alice".to_string())],
        vec![Token::Number("2".to_string()), Token::String("Bob".to_string())],
    ];
    let t = build_table(rows).unwrap();
    assert_eq!(t.types, vec!["Integer", "String"]);
    assert_eq!(t.render(), "id, name\n1, Alice\n2, Bob\n");
    assert!(t.check_wf());
}

#[test]
fn build_table_needs_a_data_row() {
    let rows = vec![vec![Token::Symbol("id".to_string())]];
    assert_eq!(build_table(rows).unwrap_err(), IngestError::TooFewRows);
}

#[test]
fn build_table_rejects_ragged_rows() {
    let rows = vec![
        vec![Token::Symbol("id".to_string()), Token::Symbol("name".to_string())],
        vec![Token::Number("1".to_string())],
    ];
    assert_eq!(build_table(rows).unwrap_err(), IngestError::WidthMismatch);
}

#[test]
fn build_table_enforces_column_types() {
    let rows = vec![
        vec![Token::Symbol("id".to_string())],
        vec![Token::Number("1".to_string())],
        vec![Token::String("two".to_string())],
    ];
    assert_eq!(build_table(rows).unwrap_err(), IngestError::StringInIntegerColumn);
}

#[test]
fn defined_table_evaluates_in_statements() {
    let line1 = get_tokens("T = {id, name").unwrap();
    let line2 = get_tokens("1, \"Alice\"").unwrap();
    let line3 = get_tokens("2, \"Bob\"}").unwrap();
    let rows = process_table_tokens(vec![line1, line2, line3]).unwrap();
    let t = build_table(rows).unwrap();
    let mut store = TableStore::new();
    store.insert("T".to_string(), t);
    assert_eq!(run("select id = 2 T", &store).unwrap().render(), "id, name\n2, Bob\n");
}

#[test]
fn expression_trees_expose_their_shape() {
    let mut tokens = get_tokens("R union S").unwrap();
    tokens.pop();
    let tree = parse(&tokens).unwrap();
    match tree {
        Expr::Binary { operator, .. } => assert_eq!(operator, Token::Union),
        other => panic!("unexpected tree: {other:?}"),
    }
}
