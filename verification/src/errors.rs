use vstd::prelude::*;
use crate::tokenizer::Token;
use crate::tokenizer::TokenV;

verus! {

/// A lexing failure: either aborts the whole line.
#[derive(Debug, Clone, PartialEq, Eq)]
pub enum LexError {
    /// A character that matches no lexing rule.
    UnrecognizedChar(char),
    /// The line ended inside a quoted literal.
    UnterminatedString,
}

/// A failure of either recursive-descent parser: aborts the statement.
#[derive(Debug, Clone, PartialEq, Eq)]
pub enum ParseError {
    /// A token no grammar rule accepts in primary position.
    UnexpectedToken(Token),
    /// The token stream ended where a token was required.
    UnexpectedEnd,
    /// A grouping was opened and the token after its body is not `)`.
    ExpectedCloseParen(Token),
    /// A projection list did not start with a column name.
    ListExpected(Token),
    /// A projection list ended right after a comma.
    ListUnexpectedEnd,
    /// Something other than a column name followed a comma in a projection
    /// list.
    ListNonSymbol(Token),
}

/// The mathematical model of a `ParseError`.
pub ghost enum ParseErrorV {
    UnexpectedToken(TokenV),
    UnexpectedEnd,
    ExpectedCloseParen(TokenV),
    ListExpected(TokenV),
    ListUnexpectedEnd,
    ListNonSymbol(TokenV),
}

impl View for ParseError {
    type V = ParseErrorV;

    open spec fn view(&self) -> ParseErrorV {
        match self {
            ParseError::UnexpectedToken(t) => ParseErrorV::UnexpectedToken(t@),
            ParseError::UnexpectedEnd => ParseErrorV::UnexpectedEnd,
            ParseError::ExpectedCloseParen(t) => ParseErrorV::ExpectedCloseParen(t@),
            ParseError::ListExpected(t) => ParseErrorV::ListExpected(t@),
            ParseError::ListUnexpectedEnd => ParseErrorV::ListUnexpectedEnd,
            ParseError::ListNonSymbol(t) => ParseErrorV::ListNonSymbol(t@),
        }
    }
}

/// Which set operation found unequal headers.
#[derive(Debug, Clone, Copy, PartialEq, Eq, Structural)]
pub enum SetOp {
    Union,
    Minus,
    Intersect,
}

/// A failure while evaluating a condition or an expression: aborts the
/// statement.
#[derive(Debug, Clone, PartialEq, Eq)]
pub enum EvalError {
    /// An operator token in a position where it cannot be evaluated.
    UnsupportedOperator(Token),
    /// A literal node carrying a token that is not a symbol, number or
    /// string.
    UnsupportedLiteral(Token),
    /// A column name missing from the row binding.
    UnknownColumn(String),
    /// A boolean operator read a string that is neither `true` nor `false`.
    NotBoolean(String),
    /// A table name missing from the store.
    UnknownTable(String),
    /// A set operation applied to tables whose headers differ.
    HeaderMismatch(SetOp),
}

/// The mathematical model of an `EvalError`.
pub ghost enum EvalErrorV {
    UnsupportedOperator(TokenV),
    UnsupportedLiteral(TokenV),
    UnknownColumn(Seq<char>),
    NotBoolean(Seq<char>),
    UnknownTable(Seq<char>),
    HeaderMismatch(SetOp),
}

impl View for EvalError {
    type V = EvalErrorV;

    open spec fn view(&self) -> EvalErrorV {
        match self {
            EvalError::UnsupportedOperator(t) => EvalErrorV::UnsupportedOperator(t@),
            EvalError::UnsupportedLiteral(t) => EvalErrorV::UnsupportedLiteral(t@),
            EvalError::UnknownColumn(s) => EvalErrorV::UnknownColumn(s@),
            EvalError::NotBoolean(s) => EvalErrorV::NotBoolean(s@),
            EvalError::UnknownTable(s) => EvalErrorV::UnknownTable(s@),
            EvalError::HeaderMismatch(op) => EvalErrorV::HeaderMismatch(*op),
        }
    }
}

/// A failure while turning the token rows of a table literal into a table:
/// the definition is rejected.
#[derive(Debug, Clone, PartialEq, Eq)]
pub enum IngestError {
    /// A token that cannot stand inside a table literal.
    UnexpectedTableToken(Token),
    /// The token rows ended right after a cell value.
    UnexpectedEnd,
    /// A table literal needs a header row and at least one data row.
    TooFewRows,
    /// A cell of the first data row that fixes no column type.
    UnknownColumnType(Token),
    /// A row whose width differs from the header's.
    WidthMismatch,
    /// A number written in a column whose type is not Integer.
    NumberInStringColumn,
    /// A quoted string written in a column whose type is not String.
    StringInIntegerColumn,
    /// A token that cannot stand as a cell value.
    BadCellToken(Token),
}

/// The mathematical model of an `IngestError`.
pub ghost enum IngestErrorV {
    UnexpectedTableToken(TokenV),
    UnexpectedEnd,
    TooFewRows,
    UnknownColumnType(TokenV),
    WidthMismatch,
    NumberInStringColumn,
    StringInIntegerColumn,
    BadCellToken(TokenV),
}

impl View for IngestError {
    type V = IngestErrorV;

    open spec fn view(&self) -> IngestErrorV {
        match self {
            IngestError::UnexpectedTableToken(t) => IngestErrorV::UnexpectedTableToken(t@),
            IngestError::UnexpectedEnd => IngestErrorV::UnexpectedEnd,
            IngestError::TooFewRows => IngestErrorV::TooFewRows,
            IngestError::UnknownColumnType(t) => IngestErrorV::UnknownColumnType(t@),
            IngestError::WidthMismatch => IngestErrorV::WidthMismatch,
            IngestError::NumberInStringColumn => IngestErrorV::NumberInStringColumn,
            IngestError::StringInIntegerColumn => IngestErrorV::StringInIntegerColumn,
            IngestError::BadCellToken(t) => IngestErrorV::BadCellToken(t@),
        }
    }
}

} // verus!
