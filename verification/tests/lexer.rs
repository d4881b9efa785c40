use relalg::tokenizer::{get_tokens, Token};
use relalg::errors::LexError;

#[test]
fn tokenize_select_statement() {
    let tokens = get_tokens("select id=1 R").unwrap();
    assert_eq!(
        tokens,
        vec![
            Token::Select,
            Token::Symbol("id".to_string()),
            Token::Equals,
            Token::Number("1".to_string()),
            Token::Symbol("R".to_string()),
            Token::EOF,
        ]
    );
}

#[test]
fn tokenize_punctuation() {
    let tokens = get_tokens("{}()=,+-*/").unwrap();
    assert_eq!(
        tokens,
        vec![
            Token::OpenCurly,
            Token::CloseCurly,
            Token::OpenParen,
            Token::CloseParen,
            Token::Equals,
            Token::Comma,
            Token::Plus,
            Token::Minus,
            Token::Multiply,
            Token::Divide,
            Token::EOF,
        ]
    );
}

#[test]
fn tokenize_comparisons_greedy() {
    let tokens = get_tokens(">= > <= < > =").unwrap();
    assert_eq!(
        tokens,
        vec![
            Token::GreaterEq,
            Token::Greater,
            Token::LesserEq,
            Token::Lesser,
            Token::Greater,
            Token::Equals,
            Token::EOF,
        ]
    );
}

#[test]
fn tokenize_keywords() {
    let tokens =
        get_tokens("project select join leftJoin rightJoin fullJoin union intersect and or not")
            .unwrap();
    assert_eq!(
        tokens,
        vec![
            Token::Project,
            Token::Select,
            Token::Join,
            Token::LeftJoin,
            Token::RightJoin,
            Token::FullJoin,
            Token::Union,
            Token::Intersect,
            Token::And,
            Token::Or,
            Token::Not,
            Token::EOF,
        ]
    );
}

#[test]
fn tokenize_symbols_and_numbers() {
    // an identifier run may continue with digits; a digit run is a number
    let tokens = get_tokens("ab1 42 Projects").unwrap();
    assert_eq!(
        tokens,
        vec![
            Token::Symbol("ab1".to_string()),
            Token::Number("42".to_string()),
            Token::Symbol("Projects".to_string()),
            Token::EOF,
        ]
    );
}

#[test]
fn tokenize_quoted_strings() {
    let tokens = get_tokens("\"hello world\" 'single'").unwrap();
    assert_eq!(
        tokens,
        vec![
            Token::String("hello world".to_string()),
            Token::String("single".to_string()),
            Token::EOF,
        ]
    );
}

#[test]
fn tokenize_empty_line_is_just_eof() {
    assert_eq!(get_tokens("   ").unwrap(), vec![Token::EOF]);
    assert_eq!(get_tokens("").unwrap(), vec![Token::EOF]);
}

#[test]
fn tokenize_unterminated_string_fails() {
    assert_eq!(get_tokens("\"abc").unwrap_err(), LexError::UnterminatedString);
    assert_eq!(get_tokens("'abc").unwrap_err(), LexError::UnterminatedString);
}

#[test]
fn tokenize_unrecognized_character_fails() {
    assert_eq!(get_tokens("a # b").unwrap_err(), LexError::UnrecognizedChar('#'));
}
