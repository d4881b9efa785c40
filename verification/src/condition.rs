use vstd::prelude::*;
use vstd::string::StringExecFns;
use crate::tokenizer::Token;
use crate::tokenizer::TokenV;
use crate::errors::ParseError;
use crate::errors::ParseErrorV;
use crate::errors::EvalError;
use crate::errors::EvalErrorV;
use crate::strings::lex_lt;
use crate::strings::bool_chars;
use crate::strings::spec_parse_bool;
use crate::strings::bool_string;
use crate::strings::parse_bool;
use crate::strings::str_lt;

verus! {

/// A predicate/scalar expression tree, evaluated against one row's column
/// binding.  Grouping only fixes precedence; every node owns its children.
#[derive(Debug)]
pub enum Condition {
    Binary { left: Box<Condition>, operator: Token, right: Box<Condition> },
    Unary { operator: Token, right: Box<Condition> },
    Grouping(Box<Condition>),
    Literal(Token),
}

/// The mathematical model of a condition tree.
pub ghost enum CondV {
    Binary { left: Box<CondV>, operator: TokenV, right: Box<CondV> },
    Unary { operator: TokenV, right: Box<CondV> },
    Grouping(Box<CondV>),
    Literal(TokenV),
}

/// The model of a condition tree: every carried token abstracted to its
/// model.
pub open spec fn cond_view(c: Condition) -> CondV
    decreases c,
{
    match c {
        Condition::Binary { left, operator, right } => CondV::Binary {
            left: Box::new(cond_view(*left)),
            operator: operator@,
            right: Box::new(cond_view(*right)),
        },
        Condition::Unary { operator, right } => CondV::Unary {
            operator: operator@,
            right: Box::new(cond_view(*right)),
        },
        Condition::Grouping(inner) => CondV::Grouping(Box::new(cond_view(*inner))),
        Condition::Literal(t) => CondV::Literal(t@),
    }
}

impl View for Condition {
    type V = CondV;

    open spec fn view(&self) -> CondV {
        cond_view(*self)
    }
}

// ---------------------------------------------------------------------------
// The row binding
// ---------------------------------------------------------------------------
/// The value bound to `key` by pairing the first `n` columns of `header`
/// with `row`: the last matching column wins, as when the pairs are
/// inserted into a map in order.
pub open spec fn lookup_upto(
    header: Seq<Seq<char>>,
    row: Seq<Seq<char>>,
    key: Seq<char>,
    n: int,
) -> Option<Seq<char>>
    decreases n,
{
    if n <= 0 {
        None
    } else if header[n - 1] == key {
        Some(row[n - 1])
    } else {
        lookup_upto(header, row, key, n - 1)
    }
}

/// How many columns the binding holds: pairing stops at the shorter of
/// header and row.
pub open spec fn binding_len(header: Seq<Seq<char>>, row: Seq<Seq<char>>) -> int {
    if header.len() <= row.len() {
        header.len() as int
    } else {
        row.len() as int
    }
}

/// The row binding: column name to value, last duplicate column winning.
pub open spec fn spec_lookup(
    header: Seq<Seq<char>>,
    row: Seq<Seq<char>>,
    key: Seq<char>,
) -> Option<Seq<char>> {
    lookup_upto(header, row, key, binding_len(header, row))
}

/// Resolves a column name against one row, mirroring `spec_lookup`.
fn lookup_value(header: &Vec<String>, row: &Vec<String>, key: &String) -> (r: Option<String>)
    ensures
        match r {
            Some(v) => spec_lookup(header.deep_view(), row.deep_view(), key@) == Some(v@),
            None => spec_lookup(header.deep_view(), row.deep_view(), key@) is None,
        },
{
    let n = if header.len() <= row.len() {
        header.len()
    } else {
        row.len()
    };
    let ghost hd = header.deep_view();
    let ghost rd = row.deep_view();
    proof {
        assert(n as int == binding_len(hd, rd));
    }
    let mut found: Option<String> = None;
    let mut i: usize = 0;
    while i < n
        invariant
            i <= n,
            n <= header.len(),
            n <= row.len(),
            hd == header.deep_view(),
            rd == row.deep_view(),
            match found {
                Some(v) => lookup_upto(hd, rd, key@, i as int) == Some(v@),
                None => lookup_upto(hd, rd, key@, i as int) is None,
            },
        decreases n - i,
    {
        proof {
            assert(hd[i as int] == header@[i as int]@);
            assert(rd[i as int] == row@[i as int]@);
        }
        if header[i].eq(key) {
            found = Some(row[i].clone());
        }
        i = i + 1;
    }
    found
}

// ---------------------------------------------------------------------------
// Evaluation
// ---------------------------------------------------------------------------
/// Whether the token is one of the six binary operators that compare or
/// concatenate the two operand strings.
pub open spec fn is_combining_op(t: TokenV) -> bool {
    t is Equals || t is Greater || t is GreaterEq || t is Lesser || t is LesserEq || t is Comma
}

/// What one of the six combining operators yields from its two fully
/// evaluated operand strings: comparisons are lexicographic on the text and
/// yield boolean text; the comma joins the operands around a comma.
pub open spec fn combine_values(op: TokenV, l: Seq<char>, r: Seq<char>) -> Seq<char> {
    match op {
        TokenV::Equals => bool_chars(l == r),
        TokenV::Greater => bool_chars(lex_lt(r, l)),
        TokenV::GreaterEq => bool_chars(!lex_lt(l, r)),
        TokenV::Lesser => bool_chars(lex_lt(l, r)),
        TokenV::LesserEq => bool_chars(!lex_lt(r, l)),
        TokenV::Comma => l + seq![','] + r,
        _ => Seq::empty(),
    }
}

/// What evaluating a condition against one row's binding yields: a string
/// (booleans are the literal text `true`/`false`), or the first evaluation
/// failure.  `and`/`or` read their left operand first and skip the right
/// one when the left already decides; symbols resolve through the binding;
/// numbers and strings are their own text.
pub open spec fn spec_eval(c: CondV, header: Seq<Seq<char>>, row: Seq<Seq<char>>) -> Result<
    Seq<char>,
    EvalErrorV,
>
    decreases c,
{
    match c {
        CondV::Binary { left, operator, right } => {
            if operator is And || operator is Or {
                let stop = operator is Or;  // the value that decides without the right operand
                match spec_eval(*left, header, row) {
                    Err(e) => Err(e),
                    Ok(l) => match spec_parse_bool(l) {
                        None => Err(EvalErrorV::NotBoolean(l)),
                        Some(lb) => if lb == stop {
                            Ok(bool_chars(stop))
                        } else {
                            match spec_eval(*right, header, row) {
                                Err(e) => Err(e),
                                Ok(r) => match spec_parse_bool(r) {
                                    None => Err(EvalErrorV::NotBoolean(r)),
                                    Some(rb) => Ok(bool_chars(rb)),
                                },
                            }
                        },
                    },
                }
            } else if is_combining_op(operator) {
                match spec_eval(*left, header, row) {
                    Err(e) => Err(e),
                    Ok(l) => match spec_eval(*right, header, row) {
                        Err(e) => Err(e),
                        Ok(r) => Ok(combine_values(operator, l, r)),
                    },
                }
            } else {
                Err(EvalErrorV::UnsupportedOperator(operator))
            }
        },
        CondV::Unary { operator, right } => {
            if operator is Not {
                match spec_eval(*right, header, row) {
                    Err(e) => Err(e),
                    Ok(r) => match spec_parse_bool(r) {
                        None => Err(EvalErrorV::NotBoolean(r)),
                        Some(rb) => Ok(bool_chars(!rb)),
                    },
                }
            } else {
                Err(EvalErrorV::UnsupportedOperator(operator))
            }
        },
        CondV::Grouping(inner) => spec_eval(*inner, header, row),
        CondV::Literal(t) => match t {
            TokenV::Symbol(key) => match spec_lookup(header, row, key) {
                Some(v) => Ok(v),
                None => Err(EvalErrorV::UnknownColumn(key)),
            },
            TokenV::Number(v) => Ok(v),
            TokenV::String(v) => Ok(v),
            _ => Err(EvalErrorV::UnsupportedLiteral(t)),
        },
    }
}

impl Condition {
    /// Evaluates this condition against one row.  `header` names the
    /// columns and `row` holds that row's values; every condition yields a
    /// string.  Fails on a column name the binding lacks, on a boolean
    /// operator over text other than `true`/`false`, and on an operator or
    /// literal token that cannot stand in condition position.
    pub fn eval(&self, header: &Vec<String>, row: &Vec<String>) -> (r: Result<String, EvalError>)
        ensures
            match r {
                Ok(s) => spec_eval(self@, header.deep_view(), row.deep_view()) == Ok::<
                    Seq<char>,
                    EvalErrorV,
                >(s@),
                Err(e) => spec_eval(self@, header.deep_view(), row.deep_view()) == Err::<
                    Seq<char>,
                    EvalErrorV,
                >(e@),
            },
        decreases self,
    {
        match self {
            Condition::Binary { left, operator, right } => {
                match operator {
                    Token::And | Token::Or => {
                        let stop = matches!(operator, Token::Or);
                        let l = match left.eval(header, row) {
                            Ok(v) => v,
                            Err(e) => {
                                return Err(e);
                            },
                        };
                        let lb = match parse_bool(&l) {
                            Some(b) => b,
                            None => {
                                return Err(EvalError::NotBoolean(l));
                            },
                        };
                        if lb == stop {
                            Ok(bool_string(stop))
                        } else {
                            let rv = match right.eval(header, row) {
                                Ok(v) => v,
                                Err(e) => {
                                    return Err(e);
                                },
                            };
                            match parse_bool(&rv) {
                                Some(rb) => Ok(bool_string(rb)),
                                None => Err(EvalError::NotBoolean(rv)),
                            }
                        }
                    },
                    Token::Equals | Token::Greater | Token::GreaterEq | Token::Lesser
                        | Token::LesserEq | Token::Comma => {
                        let l = match left.eval(header, row) {
                            Ok(v) => v,
                            Err(e) => {
                                return Err(e);
                            },
                        };
                        let rv = match right.eval(header, row) {
                            Ok(v) => v,
                            Err(e) => {
                                return Err(e);
                            },
                        };
                        match operator {
                            Token::Equals => Ok(bool_string(l == rv)),
                            Token::Greater => Ok(bool_string(str_lt(rv.as_str(), l.as_str()))),
                            Token::GreaterEq => Ok(bool_string(!str_lt(l.as_str(), rv.as_str()))),
                            Token::Lesser => Ok(bool_string(str_lt(l.as_str(), rv.as_str()))),
                            Token::LesserEq => Ok(bool_string(!str_lt(rv.as_str(), l.as_str()))),
                            _ => {
                                proof {
                                    reveal_strlit(",");
                                    assert(","@ =~= seq![',']);
                                }
                                Ok(l.concat(",").concat(rv.as_str()))
                            },
                        }
                    },
                    _ => Err(EvalError::UnsupportedOperator(operator.dup())),
                }
            },
            Condition::Unary { operator, right } => {
                match operator {
                    Token::Not => {
                        let rv = match right.eval(header, row) {
                            Ok(v) => v,
                            Err(e) => {
                                return Err(e);
                            },
                        };
                        match parse_bool(&rv) {
                            Some(rb) => Ok(bool_string(!rb)),
                            None => Err(EvalError::NotBoolean(rv)),
                        }
                    },
                    _ => Err(EvalError::UnsupportedOperator(operator.dup())),
                }
            },
            Condition::Grouping(inner) => inner.eval(header, row),
            Condition::Literal(t) => {
                match t {
                    Token::Symbol(key) => {
                        match lookup_value(header, row, key) {
                            Some(v) => Ok(v),
                            None => Err(EvalError::UnknownColumn(key.clone())),
                        }
                    },
                    Token::Number(v) => Ok(v.clone()),
                    Token::String(v) => Ok(v.clone()),
                    _ => Err(EvalError::UnsupportedLiteral(t.dup())),
                }
            },
        }
    }
}

// ---------------------------------------------------------------------------
// Parsing
// ---------------------------------------------------------------------------
/// The remaining-token budget from position `pos`: what every parsing step
/// decreases.
pub open spec fn toks_left(ts: Seq<TokenV>, pos: int) -> nat {
    if pos < 0 {
        (ts.len() + 1) as nat
    } else if pos <= ts.len() {
        (ts.len() - pos) as nat
    } else {
        0
    }
}

/// The position a sub-parse that started at `pos` really resumes at: a
/// successful sub-parse always consumes at least one token, so a reported
/// position at or before `pos` (which no run produces) is read as `pos + 1`.
pub open spec fn advance(pos: int, p: int) -> int {
    if p > pos {
        p
    } else {
        pos + 1
    }
}

/// Whether the token is one of the six comparison-level binary operators.
pub open spec fn is_comparison_token(t: TokenV) -> bool {
    t is Greater || t is GreaterEq || t is Lesser || t is LesserEq || t is Equals || t is Comma
}

/// Grammar, loosest-binding first (each level folds left-associatively):
/// ```text
/// condition  := comparison ( (and|or) comparison )*
/// comparison := unary ( (>|>=|<|<=|=|,) unary )*
/// unary      := (-|,|not) unary | primary
/// primary    := number | symbol | string | '(' condition ')'
/// ```
/// What parsing a condition at `pos` yields: the tree and the position just
/// past it, or the first parsing failure.
pub open spec fn spec_cond_parse(ts: Seq<TokenV>, pos: int) -> Result<(CondV, int), ParseErrorV>
    decreases toks_left(ts, pos), 5int,
{
    match spec_comparison(ts, pos) {
        Err(e) => Err(e),
        Ok((c, p)) => spec_cond_more(ts, advance(pos, p), c),
    }
}

/// Folds further `(and|or) comparison` steps onto `acc`.
pub open spec fn spec_cond_more(ts: Seq<TokenV>, pos: int, acc: CondV) -> Result<
    (CondV, int),
    ParseErrorV,
>
    decreases toks_left(ts, pos), 4int,
{
    if 0 <= pos < ts.len() && (ts[pos] is And || ts[pos] is Or) {
        match spec_comparison(ts, pos + 1) {
            Err(e) => Err(e),
            Ok((right, p)) => spec_cond_more(
                ts,
                advance(pos + 1, p),
                CondV::Binary { left: Box::new(acc), operator: ts[pos], right: Box::new(right) },
            ),
        }
    } else {
        Ok((acc, pos))
    }
}

/// What parsing one comparison level at `pos` yields.
pub open spec fn spec_comparison(ts: Seq<TokenV>, pos: int) -> Result<(CondV, int), ParseErrorV>
    decreases toks_left(ts, pos), 3int,
{
    match spec_cond_unary(ts, pos) {
        Err(e) => Err(e),
        Ok((c, p)) => spec_comparison_more(ts, advance(pos, p), c),
    }
}

/// Folds further `(comparison-operator) unary` steps onto `acc`.
pub open spec fn spec_comparison_more(ts: Seq<TokenV>, pos: int, acc: CondV) -> Result<
    (CondV, int),
    ParseErrorV,
>
    decreases toks_left(ts, pos), 2int,
{
    if 0 <= pos < ts.len() && is_comparison_token(ts[pos]) {
        match spec_cond_unary(ts, pos + 1) {
            Err(e) => Err(e),
            Ok((right, p)) => spec_comparison_more(
                ts,
                advance(pos + 1, p),
                CondV::Binary { left: Box::new(acc), operator: ts[pos], right: Box::new(right) },
            ),
        }
    } else {
        Ok((acc, pos))
    }
}

/// What parsing a unary level at `pos` yields: a chain of prefix operators
/// over a primary.
pub open spec fn spec_cond_unary(ts: Seq<TokenV>, pos: int) -> Result<(CondV, int), ParseErrorV>
    decreases toks_left(ts, pos), 1int,
{
    if 0 <= pos < ts.len() && (ts[pos] is Minus || ts[pos] is Comma || ts[pos] is Not) {
        match spec_cond_unary(ts, pos + 1) {
            Err(e) => Err(e),
            Ok((right, p)) => Ok(
                (CondV::Unary { operator: ts[pos], right: Box::new(right) }, p),
            ),
        }
    } else {
        spec_cond_primary(ts, pos)
    }
}

/// What parsing a primary at `pos` yields: a literal token, or a
/// parenthesized condition.
pub open spec fn spec_cond_primary(ts: Seq<TokenV>, pos: int) -> Result<(CondV, int), ParseErrorV>
    decreases toks_left(ts, pos), 0int,
{
    if !(0 <= pos < ts.len()) {
        Err(ParseErrorV::UnexpectedEnd)
    } else {
        match ts[pos] {
            TokenV::Number(_) => Ok((CondV::Literal(ts[pos]), pos + 1)),
            TokenV::Symbol(_) => Ok((CondV::Literal(ts[pos]), pos + 1)),
            TokenV::String(_) => Ok((CondV::Literal(ts[pos]), pos + 1)),
            TokenV::OpenParen => match spec_cond_parse(ts, pos + 1) {
                Err(e) => Err(e),
                Ok((c, p)) => if !(0 <= p < ts.len()) {
                    Err(ParseErrorV::UnexpectedEnd)
                } else if ts[p] is CloseParen {
                    Ok((CondV::Grouping(Box::new(c)), p + 1))
                } else {
                    Err(ParseErrorV::ExpectedCloseParen(ts[p]))
                },
            },
            t => Err(ParseErrorV::UnexpectedToken(t)),
        }
    }
}

/// Parses a condition from `tokens` starting at `pos`: on success the tree
/// and the position of the first token after it, otherwise the first
/// parsing failure.
pub fn parse(tokens: &Vec<Token>, pos: usize) -> (r: Result<(Condition, usize), ParseError>)
    ensures
        match r {
            Ok(cp) => spec_cond_parse(tokens.deep_view(), pos as int) == Ok::<_, ParseErrorV>(
                (cp.0@, cp.1 as int),
            ) && pos < cp.1 <= tokens.len(),
            Err(e) => spec_cond_parse(tokens.deep_view(), pos as int) == Err::<(CondV, int), _>(
                e@,
            ),
        },
    decreases toks_left(tokens.deep_view(), pos as int), 5int,
{
    match comparison(tokens, pos) {
        Err(e) => Err(e),
        Ok((c, p)) => {
            proof {
                assert(advance(pos as int, p as int) == p as int);
            }
            cond_more(tokens, p, c)
        },
    }
}

/// Folds further `(and|or) comparison` steps onto `acc`.
fn cond_more(tokens: &Vec<Token>, pos: usize, acc: Condition) -> (r: Result<
    (Condition, usize),
    ParseError,
>)
    requires
        pos <= tokens.len(),
    ensures
        match r {
            Ok(cp) => spec_cond_more(tokens.deep_view(), pos as int, acc@) == Ok::<
                _,
                ParseErrorV,
            >((cp.0@, cp.1 as int)) && pos <= cp.1 <= tokens.len(),
            Err(e) => spec_cond_more(tokens.deep_view(), pos as int, acc@) == Err::<
                (CondV, int),
                _,
            >(e@),
        },
    decreases toks_left(tokens.deep_view(), pos as int), 4int,
{
    let ghost ts = tokens.deep_view();
    if pos < tokens.len() {
        proof {
            assert(ts[pos as int] == tokens@[pos as int]@);
        }
        let next_is_op = match &tokens[pos] {
            Token::And => true,
            Token::Or => true,
            _ => false,
        };
        if next_is_op {
            let op = tokens[pos].dup();
            match comparison(tokens, pos + 1) {
                Err(e) => {
                    return Err(e);
                },
                Ok((right, p)) => {
                    proof {
                        assert(advance(pos as int + 1, p as int) == p as int);
                    }
                    let folded = Condition::Binary {
                        left: Box::new(acc),
                        operator: op,
                        right: Box::new(right),
                    };
                    return cond_more(tokens, p, folded);
                },
            }
        }
    }
    Ok((acc, pos))
}

/// Parses one comparison level.
fn comparison(tokens: &Vec<Token>, pos: usize) -> (r: Result<(Condition, usize), ParseError>)
    ensures
        match r {
            Ok(cp) => spec_comparison(tokens.deep_view(), pos as int) == Ok::<_, ParseErrorV>(
                (cp.0@, cp.1 as int),
            ) && pos < cp.1 <= tokens.len(),
            Err(e) => spec_comparison(tokens.deep_view(), pos as int) == Err::<(CondV, int), _>(
                e@,
            ),
        },
    decreases toks_left(tokens.deep_view(), pos as int), 3int,
{
    match unary(tokens, pos) {
        Err(e) => Err(e),
        Ok((c, p)) => {
            proof {
                assert(advance(pos as int, p as int) == p as int);
            }
            comparison_more(tokens, p, c)
        },
    }
}

/// Folds further `(comparison-operator) unary` steps onto `acc`.
fn comparison_more(tokens: &Vec<Token>, pos: usize, acc: Condition) -> (r: Result<
    (Condition, usize),
    ParseError,
>)
    requires
        pos <= tokens.len(),
    ensures
        match r {
            Ok(cp) => spec_comparison_more(tokens.deep_view(), pos as int, acc@) == Ok::<
                _,
                ParseErrorV,
            >((cp.0@, cp.1 as int)) && pos <= cp.1 <= tokens.len(),
            Err(e) => spec_comparison_more(tokens.deep_view(), pos as int, acc@) == Err::<
                (CondV, int),
                _,
            >(e@),
        },
    decreases toks_left(tokens.deep_view(), pos as int), 2int,
{
    let ghost ts = tokens.deep_view();
    if pos < tokens.len() {
        proof {
            assert(ts[pos as int] == tokens@[pos as int]@);
        }
        let next_is_op = match &tokens[pos] {
            Token::Greater => true,
            Token::GreaterEq => true,
            Token::Lesser => true,
            Token::LesserEq => true,
            Token::Equals => true,
            Token::Comma => true,
            _ => false,
        };
        if next_is_op {
            let op = tokens[pos].dup();
            match unary(tokens, pos + 1) {
                Err(e) => {
                    return Err(e);
                },
                Ok((right, p)) => {
                    proof {
                        assert(advance(pos as int + 1, p as int) == p as int);
                    }
                    let folded = Condition::Binary {
                        left: Box::new(acc),
                        operator: op,
                        right: Box::new(right),
                    };
                    return comparison_more(tokens, p, folded);
                },
            }
        }
    }
    Ok((acc, pos))
}

/// Parses a unary level: a chain of prefix operators over a primary.
fn unary(tokens: &Vec<Token>, pos: usize) -> (r: Result<(Condition, usize), ParseError>)
    ensures
        match r {
            Ok(cp) => spec_cond_unary(tokens.deep_view(), pos as int) == Ok::<_, ParseErrorV>(
                (cp.0@, cp.1 as int),
            ) && pos < cp.1 <= tokens.len(),
            Err(e) => spec_cond_unary(tokens.deep_view(), pos as int) == Err::<(CondV, int), _>(
                e@,
            ),
        },
    decreases toks_left(tokens.deep_view(), pos as int), 1int,
{
    let ghost ts = tokens.deep_view();
    if pos < tokens.len() {
        proof {
            assert(ts[pos as int] == tokens@[pos as int]@);
        }
        let is_prefix = match &tokens[pos] {
            Token::Minus => true,
            Token::Comma => true,
            Token::Not => true,
            _ => false,
        };
        if is_prefix {
            let op = tokens[pos].dup();
            match unary(tokens, pos + 1) {
                Err(e) => {
                    return Err(e);
                },
                Ok((right, p)) => {
                    return Ok((Condition::Unary { operator: op, right: Box::new(right) }, p));
                },
            }
        }
    }
    primary(tokens, pos)
}

/// Parses a primary: a literal token, or a parenthesized condition.
fn primary(tokens: &Vec<Token>, pos: usize) -> (r: Result<(Condition, usize), ParseError>)
    ensures
        match r {
            Ok(cp) => spec_cond_primary(tokens.deep_view(), pos as int) == Ok::<_, ParseErrorV>(
                (cp.0@, cp.1 as int),
            ) && pos < cp.1 <= tokens.len(),
            Err(e) => spec_cond_primary(tokens.deep_view(), pos as int) == Err::<(CondV, int), _>(
                e@,
            ),
        },
    decreases toks_left(tokens.deep_view(), pos as int), 0int,
{
    let ghost ts = tokens.deep_view();
    if pos >= tokens.len() {
        return Err(ParseError::UnexpectedEnd);
    }
    proof {
        assert(ts[pos as int] == tokens@[pos as int]@);
    }
    match &tokens[pos] {
        Token::Number(_) | Token::Symbol(_) | Token::String(_) => {
            Ok((Condition::Literal(tokens[pos].dup()), pos + 1))
        },
        Token::OpenParen => {
            match parse(tokens, pos + 1) {
                Err(e) => Err(e),
                Ok((c, p)) => {
                    if p >= tokens.len() {
                        return Err(ParseError::UnexpectedEnd);
                    }
                    proof {
                        assert(ts[p as int] == tokens@[p as int]@);
                    }
                    match &tokens[p] {
                        Token::CloseParen => Ok((Condition::Grouping(Box::new(c)), p + 1)),
                        _ => Err(ParseError::ExpectedCloseParen(tokens[p].dup())),
                    }
                },
            }
        },
        _ => Err(ParseError::UnexpectedToken(tokens[pos].dup())),
    }
}

} // verus!
