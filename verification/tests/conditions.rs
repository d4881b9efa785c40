use relalg::condition::{parse, Condition};
use relalg::errors::{EvalError, ParseError};
use relalg::tokenizer::{get_tokens, Token};

fn strings(vals: &[&str]) -> Vec<String> {
    vals.iter().map(|s| s.to_string()).collect()
}

fn lit(t: Token) -> Condition {
    Condition::Literal(t)
}

fn bin(left: Condition, op: Token, right: Condition) -> Condition {
    Condition::Binary { left: Box::new(left), operator: op, right: Box::new(right) }
}

fn parse_text(text: &str) -> Condition {
    let tokens = get_tokens(text).unwrap();
    let (cond, _) = parse(&tokens, 0).unwrap();
    cond
}

fn eval_text(text: &str, header: &[&str], row: &[&str]) -> Result<String, EvalError> {
    parse_text(text).eval(&strings(header), &strings(row))
}

#[test]
fn literal_number_evaluates_to_its_text() {
    assert_eq!(eval_text("7", &[], &[]).unwrap(), "7");
}

#[test]
fn symbol_resolves_through_the_binding() {
    assert_eq!(eval_text("name", &["id", "name"], &["1", "Alice"]).unwrap(), "Alice");
}

#[test]
fn missing_column_fails() {
    assert_eq!(
        eval_text("age", &["id"], &["1"]).unwrap_err(),
        EvalError::UnknownColumn("age".to_string())
    );
}

#[test]
fn duplicate_column_binds_the_last_value() {
    // pairing header with row, the later column of a duplicated name wins
    assert_eq!(eval_text("id", &["id", "name", "id"], &["1", "Alice", "9"]).unwrap(), "9");
}

#[test]
fn equality_is_on_text() {
    assert_eq!(eval_text("id = 1", &["id"], &["1"]).unwrap(), "true");
    assert_eq!(eval_text("id = 1", &["id"], &["2"]).unwrap(), "false");
    assert_eq!(eval_text("'a' = 'a'", &[], &[]).unwrap(), "true");
}

#[test]
fn comparison_is_lexicographic_not_numeric() {
    // the digits compare as text: "10" < "9" because '1' < '9'
    assert_eq!(eval_text("10 > 9", &[], &[]).unwrap(), "false");
    assert_eq!(eval_text("10 < 9", &[], &[]).unwrap(), "true");
    assert_eq!(eval_text("10 >= 9", &[], &[]).unwrap(), "false");
    assert_eq!(eval_text("10 <= 9", &[], &[]).unwrap(), "true");
    assert_eq!(eval_text("2 > 10", &[], &[]).unwrap(), "true");
}

#[test]
fn boolean_operators() {
    assert_eq!(eval_text("1 = 1 and 2 = 2", &[], &[]).unwrap(), "true");
    assert_eq!(eval_text("1 = 1 and 2 = 3", &[], &[]).unwrap(), "false");
    assert_eq!(eval_text("1 = 2 or 2 = 2", &[], &[]).unwrap(), "true");
    // `not` binds tighter than `=`, so the comparison must be grouped
    assert_eq!(eval_text("not (1 = 2)", &[], &[]).unwrap(), "true");
}

#[test]
fn boolean_operator_rejects_non_boolean_text() {
    assert_eq!(
        eval_text("'x' and 'y'", &[], &[]).unwrap_err(),
        EvalError::NotBoolean("x".to_string())
    );
}

#[test]
fn short_circuit_skips_the_right_operand() {
    // a false left operand decides an `and` before the right is read
    assert_eq!(eval_text("1 = 2 and missing", &["id"], &["1"]).unwrap(), "false");
    assert_eq!(eval_text("1 = 1 or missing", &["id"], &["1"]).unwrap(), "true");
}

#[test]
fn comma_concatenates_with_a_comma() {
    assert_eq!(eval_text("a , b", &["a", "b"], &["x", "y"]).unwrap(), "x,y");
}

#[test]
fn grouping_changes_precedence() {
    // without parentheses `and` binds loosest; the grouping forces the
    // comparison of the boolean text instead
    assert_eq!(eval_text("(1 = 1) = 'true'", &[], &[]).unwrap(), "true");
}

#[test]
fn unary_minus_parses_but_does_not_evaluate() {
    let cond = parse_text("- 1");
    let err = cond.eval(&strings(&[]), &strings(&[])).unwrap_err();
    assert_eq!(err, EvalError::UnsupportedOperator(Token::Minus));
}

#[test]
fn evaluating_a_binary_minus_condition_fails() {
    // a hand-built tree with an operator the evaluator does not accept
    let cond = bin(
        lit(Token::Number("1".to_string())),
        Token::Plus,
        lit(Token::Number("2".to_string())),
    );
    assert_eq!(
        cond.eval(&strings(&[]), &strings(&[])).unwrap_err(),
        EvalError::UnsupportedOperator(Token::Plus)
    );
}

#[test]
fn parse_is_left_associative() {
    // 1 = 2 = 3 folds as (1 = 2) = 3
    let cond = parse_text("1 = 2 = 3");
    match cond {
        Condition::Binary { left, operator, right } => {
            assert_eq!(operator, Token::Equals);
            assert!(matches!(*left, Condition::Binary { .. }));
            assert!(matches!(*right, Condition::Literal(Token::Number(n)) if n == "3"));
        },
        other => panic!("unexpected tree: {other:?}"),
    }
}

#[test]
fn parse_reports_position_after_the_condition() {
    let tokens = get_tokens("id = 1 R").unwrap();
    let (_, pos) = parse(&tokens, 0).unwrap();
    assert_eq!(tokens[pos], Token::Symbol("R".to_string()));
}

#[test]
fn parse_dangling_operator_fails() {
    let tokens = get_tokens("1 =").unwrap();
    // the EOF sentinel is what the parser then stumbles on
    assert_eq!(parse(&tokens, 0).unwrap_err(), ParseError::UnexpectedToken(Token::EOF));
}

#[test]
fn parse_unclosed_group_fails() {
    let mut tokens = get_tokens("(1 = 2").unwrap();
    tokens.pop();
    assert_eq!(parse(&tokens, 0).unwrap_err(), ParseError::UnexpectedEnd);
}

#[test]
fn parse_expects_closing_paren() {
    let tokens = get_tokens("(1 = 2 3").unwrap();
    assert_eq!(
        parse(&tokens, 0).unwrap_err(),
        ParseError::ExpectedCloseParen(Token::Number("3".to_string()))
    );
}

#[test]
fn unary_comma_prefix_parses_but_does_not_evaluate() {
    // the grammar admits a prefix comma; no operator rule evaluates it
    let cond = parse_text(", 1");
    assert!(matches!(cond, Condition::Unary { .. }));
    assert_eq!(
        cond.eval(&strings(&[]), &strings(&[])).unwrap_err(),
        EvalError::UnsupportedOperator(Token::Comma)
    );
}
