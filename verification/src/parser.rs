use vstd::prelude::*;
use crate::tokenizer::Token;
use crate::tokenizer::TokenV;
use crate::condition;
use crate::condition::Condition;
use crate::condition::CondV;
use crate::condition::cond_view;
use crate::condition::spec_cond_parse;
use crate::condition::toks_left;
use crate::condition::advance;
use crate::errors::ParseError;
use crate::errors::ParseErrorV;
use crate::errors::EvalError;
use crate::errors::EvalErrorV;
use crate::table::Table;
use crate::table::TableV;
use crate::table::table_wf;
use crate::table::spec_union;
use crate::table::spec_minus;
use crate::table::spec_intersect;
use crate::table::spec_multiply;
use crate::table::spec_divide;
use crate::table::spec_select;
use crate::table::spec_project;
use crate::table::spec_join;
use crate::table::spec_left_join;
use crate::table::spec_right_join;
use crate::table::spec_full_join;
use crate::table::lemma_wf_union;
use crate::table::lemma_wf_minus;
use crate::table::lemma_wf_intersect;
use crate::table::lemma_wf_multiply;
use crate::table::lemma_wf_divide;
use crate::table::lemma_wf_select;
use crate::table::lemma_wf_project;
use crate::table::lemma_wf_join;
use crate::table::lemma_wf_left_join;
use crate::table::lemma_wf_right_join;
use crate::table::lemma_wf_full_join;
use crate::table::clone_row;

verus! {

/// An ordered list of column names, as carried by a projection.
pub type List = Vec<String>;

/// A table-valued operation tree.  `Binary` carries the predicate-free
/// table operators, `BinaryCond` the join family with its embedded
/// condition, `UnaryCond` a selection, `UnaryList` a projection, and a
/// literal names a table in the store.  A plain `Unary` node is reserved:
/// no operator evaluates in that position.
#[derive(Debug)]
pub enum Expr {
    Binary { left: Box<Expr>, operator: Token, right: Box<Expr> },
    BinaryCond { left: Box<Expr>, operator: Token, condition: Box<Condition>, right: Box<Expr> },
    Unary { operator: Token, right: Box<Expr> },
    UnaryCond { operator: Token, condition: Box<Condition>, right: Box<Expr> },
    Grouping(Box<Expr>),
    Literal(Token),
    UnaryList { operator: Token, list: Box<List>, right: Box<Expr> },
}

/// The mathematical model of an expression tree.
pub ghost enum ExprV {
    Binary { left: Box<ExprV>, operator: TokenV, right: Box<ExprV> },
    BinaryCond { left: Box<ExprV>, operator: TokenV, condition: Box<CondV>, right: Box<ExprV> },
    Unary { operator: TokenV, right: Box<ExprV> },
    UnaryCond { operator: TokenV, condition: Box<CondV>, right: Box<ExprV> },
    Grouping(Box<ExprV>),
    Literal(TokenV),
    UnaryList { operator: TokenV, list: Seq<Seq<char>>, right: Box<ExprV> },
}

/// The model of an expression tree: every token, condition and list
/// abstracted to its model.
pub open spec fn expr_view(e: Expr) -> ExprV
    decreases e,
{
    match e {
        Expr::Binary { left, operator, right } => ExprV::Binary {
            left: Box::new(expr_view(*left)),
            operator: operator@,
            right: Box::new(expr_view(*right)),
        },
        Expr::BinaryCond { left, operator, condition, right } => ExprV::BinaryCond {
            left: Box::new(expr_view(*left)),
            operator: operator@,
            condition: Box::new(cond_view(*condition)),
            right: Box::new(expr_view(*right)),
        },
        Expr::Unary { operator, right } => ExprV::Unary {
            operator: operator@,
            right: Box::new(expr_view(*right)),
        },
        Expr::UnaryCond { operator, condition, right } => ExprV::UnaryCond {
            operator: operator@,
            condition: Box::new(cond_view(*condition)),
            right: Box::new(expr_view(*right)),
        },
        Expr::Grouping(inner) => ExprV::Grouping(Box::new(expr_view(*inner))),
        Expr::Literal(t) => ExprV::Literal(t@),
        Expr::UnaryList { operator, list, right } => ExprV::UnaryList {
            operator: operator@,
            list: list.deep_view(),
            right: Box::new(expr_view(*right)),
        },
    }
}

impl View for Expr {
    type V = ExprV;

    open spec fn view(&self) -> ExprV {
        expr_view(*self)
    }
}

// ---------------------------------------------------------------------------
// Parsing
// ---------------------------------------------------------------------------
/// Grammar, loosest-binding first (binary levels fold left-associatively,
/// prefix forms apply to everything to their right):
/// ```text
/// expr    := factor ( (+|-|union|intersect) factor )*
/// factor  := unary ( (*|/) unary
///                  | (join|leftJoin|rightJoin|fullJoin) condition unary )*
/// unary   := - unary | select condition unary | project list unary | primary
/// primary := symbol | number | string | '(' expr ')'
/// list    := symbol ( ',' symbol )*
/// ```
/// What parsing an expression at `pos` yields: the tree and the position
/// just past it, or the first parsing failure.
pub open spec fn spec_expr_parse(ts: Seq<TokenV>, pos: int) -> Result<(ExprV, int), ParseErrorV>
    decreases toks_left(ts, pos), 6int,
{
    match spec_factor(ts, pos) {
        Err(e) => Err(e),
        Ok((e, p)) => spec_expr_more(ts, advance(pos, p), e),
    }
}

/// Folds further `(+|-|union|intersect) factor` steps onto `acc`.
pub open spec fn spec_expr_more(ts: Seq<TokenV>, pos: int, acc: ExprV) -> Result<
    (ExprV, int),
    ParseErrorV,
>
    decreases toks_left(ts, pos), 5int,
{
    if 0 <= pos < ts.len() && (ts[pos] is Plus || ts[pos] is Minus || ts[pos] is Union
        || ts[pos] is Intersect) {
        match spec_factor(ts, pos + 1) {
            Err(e) => Err(e),
            Ok((right, p)) => spec_expr_more(
                ts,
                advance(pos + 1, p),
                ExprV::Binary { left: Box::new(acc), operator: ts[pos], right: Box::new(right) },
            ),
        }
    } else {
        Ok((acc, pos))
    }
}

/// What parsing one factor level at `pos` yields.
pub open spec fn spec_factor(ts: Seq<TokenV>, pos: int) -> Result<(ExprV, int), ParseErrorV>
    decreases toks_left(ts, pos), 4int,
{
    match spec_expr_unary(ts, pos) {
        Err(e) => Err(e),
        Ok((e, p)) => spec_factor_more(ts, advance(pos, p), e),
    }
}

/// Folds further `(*|/) unary` and `join condition unary` steps onto
/// `acc`.
pub open spec fn spec_factor_more(ts: Seq<TokenV>, pos: int, acc: ExprV) -> Result<
    (ExprV, int),
    ParseErrorV,
>
    decreases toks_left(ts, pos), 3int,
{
    if 0 <= pos < ts.len() && (ts[pos] is Multiply || ts[pos] is Divide) {
        match spec_expr_unary(ts, pos + 1) {
            Err(e) => Err(e),
            Ok((right, p)) => spec_factor_more(
                ts,
                advance(pos + 1, p),
                ExprV::Binary { left: Box::new(acc), operator: ts[pos], right: Box::new(right) },
            ),
        }
    } else if 0 <= pos < ts.len() && (ts[pos] is Join || ts[pos] is LeftJoin || ts[pos] is RightJoin
        || ts[pos] is FullJoin) {
        match spec_cond_parse(ts, pos + 1) {
            Err(e) => Err(e),
            Ok((c, p)) => match spec_expr_unary(ts, advance(pos + 1, p)) {
                Err(e) => Err(e),
                Ok((right, p2)) => spec_factor_more(
                    ts,
                    advance(advance(pos + 1, p), p2),
                    ExprV::BinaryCond {
                        left: Box::new(acc),
                        operator: ts[pos],
                        condition: Box::new(c),
                        right: Box::new(right),
                    },
                ),
            },
        }
    } else {
        Ok((acc, pos))
    }
}

/// What parsing a unary level at `pos` yields: a prefix negation,
/// selection or projection over everything to its right, or a primary.
pub open spec fn spec_expr_unary(ts: Seq<TokenV>, pos: int) -> Result<(ExprV, int), ParseErrorV>
    decreases toks_left(ts, pos), 2int,
{
    if 0 <= pos < ts.len() && ts[pos] is Minus {
        match spec_expr_unary(ts, pos + 1) {
            Err(e) => Err(e),
            Ok((right, p)) => Ok((ExprV::Unary { operator: ts[pos], right: Box::new(right) }, p)),
        }
    } else if 0 <= pos < ts.len() && ts[pos] is Select {
        match spec_cond_parse(ts, pos + 1) {
            Err(e) => Err(e),
            Ok((c, p)) => match spec_expr_unary(ts, advance(pos + 1, p)) {
                Err(e) => Err(e),
                Ok((right, p2)) => Ok(
                    (
                        ExprV::UnaryCond {
                            operator: ts[pos],
                            condition: Box::new(c),
                            right: Box::new(right),
                        },
                        p2,
                    ),
                ),
            },
        }
    } else if 0 <= pos < ts.len() && ts[pos] is Project {
        match spec_list(ts, pos + 1) {
            Err(e) => Err(e),
            Ok((lst, p)) => match spec_expr_unary(ts, advance(pos + 1, p)) {
                Err(e) => Err(e),
                Ok((right, p2)) => Ok(
                    (
                        ExprV::UnaryList {
                            operator: ts[pos],
                            list: lst,
                            right: Box::new(right),
                        },
                        p2,
                    ),
                ),
            },
        }
    } else {
        spec_expr_primary(ts, pos)
    }
}

/// What parsing a primary at `pos` yields: a literal token, or a
/// parenthesized expression.
pub open spec fn spec_expr_primary(ts: Seq<TokenV>, pos: int) -> Result<(ExprV, int), ParseErrorV>
    decreases toks_left(ts, pos), 0int,
{
    if !(0 <= pos < ts.len()) {
        Err(ParseErrorV::UnexpectedEnd)
    } else {
        match ts[pos] {
            TokenV::Symbol(_) => Ok((ExprV::Literal(ts[pos]), pos + 1)),
            TokenV::Number(_) => Ok((ExprV::Literal(ts[pos]), pos + 1)),
            TokenV::String(_) => Ok((ExprV::Literal(ts[pos]), pos + 1)),
            TokenV::OpenParen => match spec_expr_parse(ts, pos + 1) {
                Err(e) => Err(e),
                Ok((e, p)) => if !(0 <= p < ts.len()) {
                    Err(ParseErrorV::UnexpectedEnd)
                } else if ts[p] is CloseParen {
                    Ok((ExprV::Grouping(Box::new(e)), p + 1))
                } else {
                    Err(ParseErrorV::ExpectedCloseParen(ts[p]))
                },
            },
            t => Err(ParseErrorV::UnexpectedToken(t)),
        }
    }
}

/// What parsing a column-name list at `pos` yields: one symbol, then any
/// number of comma-symbol pairs.
pub open spec fn spec_list(ts: Seq<TokenV>, pos: int) -> Result<
    (Seq<Seq<char>>, int),
    ParseErrorV,
>
    decreases toks_left(ts, pos), 1int,
{
    if !(0 <= pos < ts.len()) {
        Err(ParseErrorV::UnexpectedEnd)
    } else {
        match ts[pos] {
            TokenV::Symbol(s) => spec_list_more(ts, pos + 1, seq![s]),
            t => Err(ParseErrorV::ListExpected(t)),
        }
    }
}

/// Folds further `',' symbol` steps onto the collected names.
pub open spec fn spec_list_more(ts: Seq<TokenV>, pos: int, acc: Seq<Seq<char>>) -> Result<
    (Seq<Seq<char>>, int),
    ParseErrorV,
>
    decreases toks_left(ts, pos), 0int,
{
    if 0 <= pos < ts.len() && ts[pos] is Comma {
        if pos + 1 < ts.len() {
            match ts[pos + 1] {
                TokenV::Symbol(s) => spec_list_more(ts, pos + 2, acc.push(s)),
                t => Err(ParseErrorV::ListNonSymbol(t)),
            }
        } else {
            Err(ParseErrorV::ListUnexpectedEnd)
        }
    } else {
        Ok((acc, pos))
    }
}

/// Parses a whole expression statement from `tokens`: the tree of the
/// leading expression (tokens after it are left unread, as the grammar has
/// no statement terminator), or the first parsing failure.
pub fn parse(tokens: &Vec<Token>) -> (r: Result<Expr, ParseError>)
    ensures
        match r {
            Ok(e) => spec_expr_parse(tokens.deep_view(), 0) matches Ok(ep) && ep.0 == e@,
            Err(e) => spec_expr_parse(tokens.deep_view(), 0) == Err::<(ExprV, int), _>(e@),
        },
{
    match expr(tokens, 0) {
        Ok((e, _)) => Ok(e),
        Err(e) => Err(e),
    }
}

/// Parses one expression level.
fn expr(tokens: &Vec<Token>, pos: usize) -> (r: Result<(Expr, usize), ParseError>)
    ensures
        match r {
            Ok(ep) => spec_expr_parse(tokens.deep_view(), pos as int) == Ok::<_, ParseErrorV>(
                (ep.0@, ep.1 as int),
            ) && pos < ep.1 <= tokens.len(),
            Err(e) => spec_expr_parse(tokens.deep_view(), pos as int) == Err::<(ExprV, int), _>(
                e@,
            ),
        },
    decreases toks_left(tokens.deep_view(), pos as int), 6int,
{
    match factor(tokens, pos) {
        Err(e) => Err(e),
        Ok((e, p)) => {
            proof {
                assert(advance(pos as int, p as int) == p as int);
            }
            expr_more(tokens, p, e)
        },
    }
}

/// Folds further `(+|-|union|intersect) factor` steps onto `acc`.
#[verifier::rlimit(60)]
fn expr_more(tokens: &Vec<Token>, pos: usize, acc: Expr) -> (r: Result<(Expr, usize), ParseError>)
    requires
        pos <= tokens.len(),
    ensures
        match r {
            Ok(ep) => spec_expr_more(tokens.deep_view(), pos as int, acc@) == Ok::<
                _,
                ParseErrorV,
            >((ep.0@, ep.1 as int)) && pos <= ep.1 <= tokens.len(),
            Err(e) => spec_expr_more(tokens.deep_view(), pos as int, acc@) == Err::<
                (ExprV, int),
                _,
            >(e@),
        },
    decreases toks_left(tokens.deep_view(), pos as int), 5int,
{
    let ghost ts = tokens.deep_view();
    if pos < tokens.len() {
        proof {
            assert(ts[pos as int] == tokens@[pos as int]@);
        }
        let next_is_op = match &tokens[pos] {
            Token::Plus => true,
            Token::Minus => true,
            Token::Union => true,
            Token::Intersect => true,
            _ => false,
        };
        if next_is_op {
            let op = tokens[pos].dup();
            match factor(tokens, pos + 1) {
                Err(e) => {
                    return Err(e);
                },
                Ok((right, p)) => {
                    proof {
                        assert(advance(pos as int + 1, p as int) == p as int);
                    }
                    let folded = Expr::Binary {
                        left: Box::new(acc),
                        operator: op,
                        right: Box::new(right),
                    };
                    return expr_more(tokens, p, folded);
                },
            }
        }
    }
    Ok((acc, pos))
}

/// Parses one factor level.
fn factor(tokens: &Vec<Token>, pos: usize) -> (r: Result<(Expr, usize), ParseError>)
    ensures
        match r {
            Ok(ep) => spec_factor(tokens.deep_view(), pos as int) == Ok::<_, ParseErrorV>(
                (ep.0@, ep.1 as int),
            ) && pos < ep.1 <= tokens.len(),
            Err(e) => spec_factor(tokens.deep_view(), pos as int) == Err::<(ExprV, int), _>(e@),
        },
    decreases toks_left(tokens.deep_view(), pos as int), 4int,
{
    match unary(tokens, pos) {
        Err(e) => Err(e),
        Ok((e, p)) => {
            proof {
                assert(advance(pos as int, p as int) == p as int);
            }
            factor_more(tokens, p, e)
        },
    }
}

/// Folds further `(*|/) unary` and `join condition unary` steps onto
/// `acc`.
fn factor_more(tokens: &Vec<Token>, pos: usize, acc: Expr) -> (r: Result<
    (Expr, usize),
    ParseError,
>)
    requires
        pos <= tokens.len(),
    ensures
        match r {
            Ok(ep) => spec_factor_more(tokens.deep_view(), pos as int, acc@) == Ok::<
                _,
                ParseErrorV,
            >((ep.0@, ep.1 as int)) && pos <= ep.1 <= tokens.len(),
            Err(e) => spec_factor_more(tokens.deep_view(), pos as int, acc@) == Err::<
                (ExprV, int),
                _,
            >(e@),
        },
    decreases toks_left(tokens.deep_view(), pos as int), 3int,
{
    let ghost ts = tokens.deep_view();
    if pos < tokens.len() {
        proof {
            assert(ts[pos as int] == tokens@[pos as int]@);
        }
        let next_is_mul = match &tokens[pos] {
            Token::Multiply => true,
            Token::Divide => true,
            _ => false,
        };
        let next_is_join = match &tokens[pos] {
            Token::Join => true,
            Token::LeftJoin => true,
            Token::RightJoin => true,
            Token::FullJoin => true,
            _ => false,
        };
        if next_is_mul {
            let op = tokens[pos].dup();
            match unary(tokens, pos + 1) {
                Err(e) => {
                    return Err(e);
                },
                Ok((right, p)) => {
                    proof {
                        assert(advance(pos as int + 1, p as int) == p as int);
                    }
                    let folded = Expr::Binary {
                        left: Box::new(acc),
                        operator: op,
                        right: Box::new(right),
                    };
                    return factor_more(tokens, p, folded);
                },
            }
        }
        if next_is_join {
            let op = tokens[pos].dup();
            match condition::parse(tokens, pos + 1) {
                Err(e) => {
                    return Err(e);
                },
                Ok((cond, p)) => {
                    proof {
                        assert(advance(pos as int + 1, p as int) == p as int);
                    }
                    match unary(tokens, p) {
                        Err(e) => {
                            return Err(e);
                        },
                        Ok((right, p2)) => {
                            proof {
                                assert(advance(p as int, p2 as int) == p2 as int);
                            }
                            let folded = Expr::BinaryCond {
                                left: Box::new(acc),
                                operator: op,
                                condition: Box::new(cond),
                                right: Box::new(right),
                            };
                            return factor_more(tokens, p2, folded);
                        },
                    }
                },
            }
        }
    }
    Ok((acc, pos))
}

/// Parses a unary level: a prefix negation, selection or projection over
/// everything to its right, or a primary.
fn unary(tokens: &Vec<Token>, pos: usize) -> (r: Result<(Expr, usize), ParseError>)
    ensures
        match r {
            Ok(ep) => spec_expr_unary(tokens.deep_view(), pos as int) == Ok::<_, ParseErrorV>(
                (ep.0@, ep.1 as int),
            ) && pos < ep.1 <= tokens.len(),
            Err(e) => spec_expr_unary(tokens.deep_view(), pos as int) == Err::<(ExprV, int), _>(
                e@,
            ),
        },
    decreases toks_left(tokens.deep_view(), pos as int), 2int,
{
    let ghost ts = tokens.deep_view();
    if pos < tokens.len() {
        proof {
            assert(ts[pos as int] == tokens@[pos as int]@);
        }
        let kind: u8 = match &tokens[pos] {
            Token::Minus => 1,
            Token::Select => 2,
            Token::Project => 3,
            _ => 0,
        };
        if kind == 1 {
            let op = tokens[pos].dup();
            match unary(tokens, pos + 1) {
                Err(e) => {
                    return Err(e);
                },
                Ok((right, p)) => {
                    return Ok((Expr::Unary { operator: op, right: Box::new(right) }, p));
                },
            }
        }
        if kind == 2 {
            let op = tokens[pos].dup();
            match condition::parse(tokens, pos + 1) {
                Err(e) => {
                    return Err(e);
                },
                Ok((cond, p)) => {
                    proof {
                        assert(advance(pos as int + 1, p as int) == p as int);
                    }
                    match unary(tokens, p) {
                        Err(e) => {
                            return Err(e);
                        },
                        Ok((right, p2)) => {
                            return Ok(
                                (
                                    Expr::UnaryCond {
                                        operator: op,
                                        condition: Box::new(cond),
                                        right: Box::new(right),
                                    },
                                    p2,
                                ),
                            );
                        },
                    }
                },
            }
        }
        if kind == 3 {
            let op = tokens[pos].dup();
            match list(tokens, pos + 1) {
                Err(e) => {
                    return Err(e);
                },
                Ok((names, p)) => {
                    proof {
                        assert(advance(pos as int + 1, p as int) == p as int);
                    }
                    match unary(tokens, p) {
                        Err(e) => {
                            return Err(e);
                        },
                        Ok((right, p2)) => {
                            return Ok(
                                (
                                    Expr::UnaryList {
                                        operator: op,
                                        list: Box::new(names),
                                        right: Box::new(right),
                                    },
                                    p2,
                                ),
                            );
                        },
                    }
                },
            }
        }
    }
    primary(tokens, pos)
}

/// Parses a primary: a literal token, or a parenthesized expression.
fn primary(tokens: &Vec<Token>, pos: usize) -> (r: Result<(Expr, usize), ParseError>)
    ensures
        match r {
            Ok(ep) => spec_expr_primary(tokens.deep_view(), pos as int) == Ok::<_, ParseErrorV>(
                (ep.0@, ep.1 as int),
            ) && pos < ep.1 <= tokens.len(),
            Err(e) => spec_expr_primary(tokens.deep_view(), pos as int) == Err::<(ExprV, int), _>(
                e@,
            ),
        },
    decreases toks_left(tokens.deep_view(), pos as int), 0int,
{
    let ghost ts = tokens.deep_view();
    if pos >= tokens.len() {
        return Err(ParseError::UnexpectedEnd);
    }
    proof {
        assert(ts[pos as int] == tokens@[pos as int]@);
    }
    match &tokens[pos] {
        Token::Symbol(_) | Token::Number(_) | Token::String(_) => {
            Ok((Expr::Literal(tokens[pos].dup()), pos + 1))
        },
        Token::OpenParen => {
            match expr(tokens, pos + 1) {
                Err(e) => Err(e),
                Ok((e, p)) => {
                    if p >= tokens.len() {
                        return Err(ParseError::UnexpectedEnd);
                    }
                    proof {
                        assert(ts[p as int] == tokens@[p as int]@);
                    }
                    match &tokens[p] {
                        Token::CloseParen => Ok((Expr::Grouping(Box::new(e)), p + 1)),
                        _ => Err(ParseError::ExpectedCloseParen(tokens[p].dup())),
                    }
                },
            }
        },
        _ => Err(ParseError::UnexpectedToken(tokens[pos].dup())),
    }
}

/// Parses a column-name list: one symbol, then any number of comma-symbol
/// pairs.
fn list(tokens: &Vec<Token>, pos: usize) -> (r: Result<(Vec<String>, usize), ParseError>)
    ensures
        match r {
            Ok(lp) => spec_list(tokens.deep_view(), pos as int) == Ok::<_, ParseErrorV>(
                (lp.0.deep_view(), lp.1 as int),
            ) && pos < lp.1 <= tokens.len(),
            Err(e) => spec_list(tokens.deep_view(), pos as int) == Err::<
                (Seq<Seq<char>>, int),
                _,
            >(e@),
        },
    decreases toks_left(tokens.deep_view(), pos as int), 1int,
{
    let ghost ts = tokens.deep_view();
    if pos >= tokens.len() {
        return Err(ParseError::UnexpectedEnd);
    }
    proof {
        assert(ts[pos as int] == tokens@[pos as int]@);
    }
    match &tokens[pos] {
        Token::Symbol(s) => {
            let mut names: Vec<String> = Vec::new();
            names.push(s.clone());
            proof {
                assert(names.deep_view() =~= seq![s@]);
            }
            list_more(tokens, pos + 1, names)
        },
        _ => Err(ParseError::ListExpected(tokens[pos].dup())),
    }
}

/// Folds further `',' symbol` steps onto the collected names.
fn list_more(tokens: &Vec<Token>, pos: usize, acc: Vec<String>) -> (r: Result<
    (Vec<String>, usize),
    ParseError,
>)
    requires
        pos <= tokens.len(),
    ensures
        match r {
            Ok(lp) => spec_list_more(tokens.deep_view(), pos as int, acc.deep_view()) == Ok::<
                _,
                ParseErrorV,
            >((lp.0.deep_view(), lp.1 as int)) && pos <= lp.1 <= tokens.len(),
            Err(e) => spec_list_more(tokens.deep_view(), pos as int, acc.deep_view()) == Err::<
                (Seq<Seq<char>>, int),
                _,
            >(e@),
        },
    decreases toks_left(tokens.deep_view(), pos as int), 0int,
{
    let ghost ts = tokens.deep_view();
    if pos < tokens.len() {
        proof {
            assert(ts[pos as int] == tokens@[pos as int]@);
        }
        let next_is_comma = match &tokens[pos] {
            Token::Comma => true,
            _ => false,
        };
        if next_is_comma {
            if pos + 1 >= tokens.len() {
                return Err(ParseError::ListUnexpectedEnd);
            }
            proof {
                assert(ts[pos as int + 1] == tokens@[pos as int + 1]@);
            }
            match &tokens[pos + 1] {
                Token::Symbol(s) => {
                    let ghost pre = acc.deep_view();
                    let mut names = acc;
                    names.push(s.clone());
                    proof {
                        assert(names.deep_view() =~= pre.push(s@));
                    }
                    return list_more(tokens, pos + 2, names);
                },
                _ => {
                    return Err(ParseError::ListNonSymbol(tokens[pos + 1].dup()));
                },
            }
        }
    }
    Ok((acc, pos))
}

// ---------------------------------------------------------------------------
// The named-table store
// ---------------------------------------------------------------------------
/// One named table of the store.
pub struct StoreEntry {
    pub name: String,
    pub table: Table,
}

/// The table bound to `name` among the first `n` entries: the last
/// insertion wins.
pub open spec fn store_get_upto(entries: Seq<StoreEntry>, name: Seq<char>, n: int) -> Option<
    TableV,
>
    decreases n,
{
    if n <= 0 {
        None
    } else if entries[n - 1].name@ == name {
        Some(entries[n - 1].table@)
    } else {
        store_get_upto(entries, name, n - 1)
    }
}

/// The named-table store: tables keyed by symbol name, an insertion
/// shadowing any earlier table of the same name.  Every stored table is
/// well-formed.
pub struct TableStore {
    entries: Vec<StoreEntry>,
}

impl TableStore {
    /// Every stored table is well-formed.
    pub closed spec fn wf(&self) -> bool {
        forall|k: int|
            0 <= k < self.entries@.len() ==> table_wf(#[trigger] self.entries@[k].table@)
    }

    /// The table bound to `name`, if any.
    pub closed spec fn spec_get(&self, name: Seq<char>) -> Option<TableV> {
        store_get_upto(self.entries@, name, self.entries@.len() as int)
    }

    /// Whatever the store hands out is well-formed.
    pub proof fn lemma_get_wf(&self, name: Seq<char>)
        requires
            self.wf(),
        ensures
            self.spec_get(name) matches Some(t) ==> table_wf(t),
    {
        lemma_store_get_upto_wf(self.entries@, name, self.entries@.len() as int);
    }

    /// An empty store.
    pub fn new() -> (s: TableStore)
        ensures
            s.wf(),
            forall|n: Seq<char>| s.spec_get(n) is None,
    {
        TableStore { entries: Vec::new() }
    }

    /// Binds `name` to `table`, shadowing any earlier table of that name.
    pub fn insert(&mut self, name: String, table: Table)
        requires
            old(self).wf(),
            table.wf(),
        ensures
            final(self).wf(),
            final(self).spec_get(name@) == Some::<TableV>(table@),
            forall|n: Seq<char>|
                n != name@ ==> #[trigger] final(self).spec_get(n) == old(self).spec_get(n),
    {
        let ghost pre = self.entries@;
        let ghost tv = table@;
        let ghost nv = name@;
        self.entries.push(StoreEntry { name, table });
        proof {
            let post = self.entries@;
            assert(post[pre.len() as int].name@ == nv);
            assert(post[pre.len() as int].table@ == tv);
            assert forall|n: Seq<char>| n != nv implies #[trigger] store_get_upto(
                post,
                n,
                post.len() as int,
            ) == store_get_upto(pre, n, pre.len() as int) by {
                lemma_store_get_upto_frame(pre, post, n, pre.len() as int);
            }
        }
    }

    /// The table bound to `name`, copied out of the store.
    pub fn get(&self, name: &String) -> (r: Option<Table>)
        ensures
            match r {
                Some(t) => self.spec_get(name@) == Some(t@),
                None => self.spec_get(name@) is None,
            },
    {
        let mut found: Option<Table> = None;
        let mut i: usize = 0;
        while i < self.entries.len()
            invariant
                i <= self.entries.len(),
                match found {
                    Some(t) => store_get_upto(self.entries@, name@, i as int) == Some(t@),
                    None => store_get_upto(self.entries@, name@, i as int) is None,
                },
            decreases self.entries.len() - i,
        {
            if self.entries[i].name.eq(name) {
                found = Some(self.entries[i].table.duplicate());
            }
            i = i + 1;
        }
        found
    }
}

/// Whatever `store_get_upto` finds among well-formed entries is
/// well-formed.
proof fn lemma_store_get_upto_wf(entries: Seq<StoreEntry>, name: Seq<char>, n: int)
    requires
        forall|k: int| 0 <= k < entries.len() ==> table_wf(#[trigger] entries[k].table@),
        n <= entries.len(),
    ensures
        store_get_upto(entries, name, n) matches Some(t) ==> table_wf(t),
    decreases n,
{
    if n <= 0 {
    } else if entries[n - 1].name@ == name {
    } else {
        lemma_store_get_upto_wf(entries, name, n - 1);
    }
}

/// A lookup below a push is unchanged.
proof fn lemma_store_get_upto_frame(
    pre: Seq<StoreEntry>,
    post: Seq<StoreEntry>,
    name: Seq<char>,
    n: int,
)
    requires
        n <= pre.len(),
        forall|k: int| 0 <= k < pre.len() ==> post[k] == pre[k],
    ensures
        store_get_upto(post, name, n) == store_get_upto(pre, name, n),
    decreases n,
{
    if n <= 0 {
    } else {
        lemma_store_get_upto_frame(pre, post, name, n - 1);
    }
}

// ---------------------------------------------------------------------------
// Evaluation
// ---------------------------------------------------------------------------
/// What evaluating an expression against the store yields: the resulting
/// table, or the first evaluation failure.  Each node dispatches on its
/// operator token first, then evaluates its operands left to right, then
/// applies the table operation; a literal symbol is looked up in the
/// store; a plain unary node and a non-symbol literal never evaluate.
pub open spec fn spec_eval_expr(e: ExprV, store: TableStore) -> Result<TableV, EvalErrorV>
    decreases e,
{
    match e {
        ExprV::Binary { left, operator, right } => {
            if operator is Union || operator is Intersect || operator is Minus
                || operator is Multiply || operator is Divide {
                match spec_eval_expr(*left, store) {
                    Err(er) => Err(er),
                    Ok(lt) => match spec_eval_expr(*right, store) {
                        Err(er) => Err(er),
                        Ok(rt) => match operator {
                            TokenV::Union => spec_union(lt, rt),
                            TokenV::Intersect => spec_intersect(lt, rt),
                            TokenV::Minus => spec_minus(lt, rt),
                            TokenV::Multiply => Ok(spec_multiply(lt, rt)),
                            _ => spec_divide(lt, rt),
                        },
                    },
                }
            } else {
                Err(EvalErrorV::UnsupportedOperator(operator))
            }
        },
        ExprV::BinaryCond { left, operator, condition, right } => {
            if operator is Join || operator is LeftJoin || operator is RightJoin
                || operator is FullJoin {
                match spec_eval_expr(*left, store) {
                    Err(er) => Err(er),
                    Ok(lt) => match spec_eval_expr(*right, store) {
                        Err(er) => Err(er),
                        Ok(rt) => match operator {
                            TokenV::Join => spec_join(lt, *condition, rt),
                            TokenV::LeftJoin => spec_left_join(lt, *condition, rt),
                            TokenV::RightJoin => spec_right_join(lt, *condition, rt),
                            _ => spec_full_join(lt, *condition, rt),
                        },
                    },
                }
            } else {
                Err(EvalErrorV::UnsupportedOperator(operator))
            }
        },
        ExprV::Unary { operator, .. } => Err(EvalErrorV::UnsupportedOperator(operator)),
        ExprV::UnaryCond { operator, condition, right } => {
            if operator is Select {
                match spec_eval_expr(*right, store) {
                    Err(er) => Err(er),
                    Ok(t) => spec_select(t, *condition),
                }
            } else {
                Err(EvalErrorV::UnsupportedOperator(operator))
            }
        },
        ExprV::UnaryList { operator, list, right } => {
            if operator is Project {
                match spec_eval_expr(*right, store) {
                    Err(er) => Err(er),
                    Ok(t) => Ok(spec_project(t, list)),
                }
            } else {
                Err(EvalErrorV::UnsupportedOperator(operator))
            }
        },
        ExprV::Grouping(inner) => spec_eval_expr(*inner, store),
        ExprV::Literal(t) => match t {
            TokenV::Symbol(name) => match store.spec_get(name) {
                Some(tv) => Ok(tv),
                None => Err(EvalErrorV::UnknownTable(name)),
            },
            _ => Err(EvalErrorV::UnsupportedLiteral(t)),
        },
    }
}

/// Whatever evaluation yields over a well-formed store is well-formed.
pub proof fn lemma_eval_wf(e: ExprV, store: TableStore)
    requires
        store.wf(),
    ensures
        spec_eval_expr(e, store) matches Ok(t) ==> table_wf(t),
    decreases e,
{
    match e {
        ExprV::Binary { left, operator, right } => {
            lemma_eval_wf(*left, store);
            lemma_eval_wf(*right, store);
            if spec_eval_expr(e, store) matches Ok(_) {
                let lt = spec_eval_expr(*left, store)->Ok_0;
                let rt = spec_eval_expr(*right, store)->Ok_0;
                match operator {
                    TokenV::Union => lemma_wf_union(lt, rt),
                    TokenV::Intersect => lemma_wf_intersect(lt, rt),
                    TokenV::Minus => lemma_wf_minus(lt, rt),
                    TokenV::Multiply => lemma_wf_multiply(lt, rt),
                    TokenV::Divide => lemma_wf_divide(lt, rt),
                    _ => {},
                }
            }
        },
        ExprV::BinaryCond { left, operator, condition, right } => {
            lemma_eval_wf(*left, store);
            lemma_eval_wf(*right, store);
            if spec_eval_expr(e, store) matches Ok(_) {
                let lt = spec_eval_expr(*left, store)->Ok_0;
                let rt = spec_eval_expr(*right, store)->Ok_0;
                match operator {
                    TokenV::Join => lemma_wf_join(lt, *condition, rt),
                    TokenV::LeftJoin => lemma_wf_left_join(lt, *condition, rt),
                    TokenV::RightJoin => lemma_wf_right_join(lt, *condition, rt),
                    TokenV::FullJoin => lemma_wf_full_join(lt, *condition, rt),
                    _ => {},
                }
            }
        },
        ExprV::Unary { .. } => {},
        ExprV::UnaryCond { operator, condition, right } => {
            lemma_eval_wf(*right, store);
            if spec_eval_expr(e, store) matches Ok(_) {
                let t = spec_eval_expr(*right, store)->Ok_0;
                lemma_wf_select(t, *condition);
            }
        },
        ExprV::UnaryList { operator, list, right } => {
            lemma_eval_wf(*right, store);
            if spec_eval_expr(e, store) matches Ok(_) {
                let t = spec_eval_expr(*right, store)->Ok_0;
                lemma_wf_project(t, list);
            }
        },
        ExprV::Grouping(inner) => {
            lemma_eval_wf(*inner, store);
        },
        ExprV::Literal(t) => {
            match t {
                TokenV::Symbol(name) => {
                    store.lemma_get_wf(name);
                },
                _ => {},
            }
        },
    }
}

impl Expr {
    /// Evaluates this expression against the named-table store, producing
    /// a fresh table.  Fails on an unknown table name, on an operator or
    /// literal that cannot evaluate, and wherever the table operation
    /// itself fails.
    pub fn eval(&self, tables: &TableStore) -> (r: Result<Table, EvalError>)
        requires
            tables.wf(),
        ensures
            match r {
                Ok(t) => spec_eval_expr(self@, *tables) == Ok::<TableV, EvalErrorV>(t@),
                Err(e) => spec_eval_expr(self@, *tables) == Err::<TableV, EvalErrorV>(e@),
            },
        decreases self,
    {
        match self {
            Expr::Binary { left, operator, right } => {
                let supported = match operator {
                    Token::Union => true,
                    Token::Intersect => true,
                    Token::Minus => true,
                    Token::Multiply => true,
                    Token::Divide => true,
                    _ => false,
                };
                if !supported {
                    return Err(EvalError::UnsupportedOperator(operator.dup()));
                }
                let lt = match left.eval(tables) {
                    Ok(t) => t,
                    Err(e) => {
                        return Err(e);
                    },
                };
                let rt = match right.eval(tables) {
                    Ok(t) => t,
                    Err(e) => {
                        return Err(e);
                    },
                };
                proof {
                    lemma_eval_wf(expr_view(**left), *tables);
                    lemma_eval_wf(expr_view(**right), *tables);
                }
                match operator {
                    Token::Union => lt.union(&rt),
                    Token::Intersect => lt.intersect(&rt),
                    Token::Minus => lt.minus(&rt),
                    Token::Multiply => lt.multiply(&rt),
                    _ => lt.divide(&rt),
                }
            },
            Expr::BinaryCond { left, operator, condition, right } => {
                let supported = match operator {
                    Token::Join => true,
                    Token::LeftJoin => true,
                    Token::RightJoin => true,
                    Token::FullJoin => true,
                    _ => false,
                };
                if !supported {
                    return Err(EvalError::UnsupportedOperator(operator.dup()));
                }
                let lt = match left.eval(tables) {
                    Ok(t) => t,
                    Err(e) => {
                        return Err(e);
                    },
                };
                let rt = match right.eval(tables) {
                    Ok(t) => t,
                    Err(e) => {
                        return Err(e);
                    },
                };
                proof {
                    lemma_eval_wf(expr_view(**left), *tables);
                    lemma_eval_wf(expr_view(**right), *tables);
                }
                match operator {
                    Token::Join => lt.join(condition, &rt),
                    Token::LeftJoin => lt.left_join(condition, &rt),
                    Token::RightJoin => lt.right_join(condition, &rt),
                    _ => lt.full_join(condition, &rt),
                }
            },
            Expr::Unary { operator, .. } => Err(EvalError::UnsupportedOperator(operator.dup())),
            Expr::UnaryCond { operator, condition, right } => {
                let supported = match operator {
                    Token::Select => true,
                    _ => false,
                };
                if !supported {
                    return Err(EvalError::UnsupportedOperator(operator.dup()));
                }
                let t = match right.eval(tables) {
                    Ok(t) => t,
                    Err(e) => {
                        return Err(e);
                    },
                };
                proof {
                    lemma_eval_wf(expr_view(**right), *tables);
                }
                t.select(condition)
            },
            Expr::UnaryList { operator, list, right } => {
                let supported = match operator {
                    Token::Project => true,
                    _ => false,
                };
                if !supported {
                    return Err(EvalError::UnsupportedOperator(operator.dup()));
                }
                let t = match right.eval(tables) {
                    Ok(t) => t,
                    Err(e) => {
                        return Err(e);
                    },
                };
                proof {
                    lemma_eval_wf(expr_view(**right), *tables);
                }
                t.project(clone_row(list))
            },
            Expr::Grouping(inner) => inner.eval(tables),
            Expr::Literal(t) => {
                match t {
                    Token::Symbol(name) => {
                        match tables.get(name) {
                            Some(table) => Ok(table),
                            None => Err(EvalError::UnknownTable(name.clone())),
                        }
                    },
                    _ => Err(EvalError::UnsupportedLiteral(t.dup())),
                }
            },
        }
    }
}

} // verus!
