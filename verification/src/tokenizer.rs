use vstd::prelude::*;
use vstd::string::StrSliceExecFns;
use crate::errors::LexError;
use crate::strings::char_is_whitespace;
use crate::strings::char_is_alphabetic;
use crate::strings::char_is_alphanumeric;
use crate::strings::char_is_numeric;
use crate::strings::is_whitespace_char;
use crate::strings::is_alphabetic_char;
use crate::strings::is_alphanumeric_char;
use crate::strings::is_numeric_char;
use crate::strings::push_char;
use crate::strings::string_eq_lit;

verus! {

/// The lexical vocabulary of the query language: structural punctuation,
/// arithmetic and comparison operators, boolean operators, the
/// relational-algebra keywords, the literal-carrying variants, and the
/// end-of-line sentinel `EOF`.
#[derive(Debug, Clone, PartialEq, Eq)]
pub enum Token {
    OpenCurly,
    CloseCurly,
    OpenParen,
    CloseParen,
    Equals,
    Comma,
    Plus,
    Divide,
    Multiply,
    And,
    Or,
    Not,
    Greater,
    GreaterEq,
    Lesser,
    LesserEq,
    Project,
    Select,
    Join,
    LeftJoin,
    RightJoin,
    FullJoin,
    Union,
    Intersect,
    Minus,
    Symbol(String),
    String(String),
    Number(String),
    EOF,
}

/// The mathematical model of a token: the same tag, with every carried
/// string abstracted to its sequence of characters.
pub ghost enum TokenV {
    OpenCurly,
    CloseCurly,
    OpenParen,
    CloseParen,
    Equals,
    Comma,
    Plus,
    Divide,
    Multiply,
    And,
    Or,
    Not,
    Greater,
    GreaterEq,
    Lesser,
    LesserEq,
    Project,
    Select,
    Join,
    LeftJoin,
    RightJoin,
    FullJoin,
    Union,
    Intersect,
    Minus,
    Symbol(Seq<char>),
    String(Seq<char>),
    Number(Seq<char>),
    EOF,
}

impl View for Token {
    type V = TokenV;

    open spec fn view(&self) -> TokenV {
        match self {
            Token::OpenCurly => TokenV::OpenCurly,
            Token::CloseCurly => TokenV::CloseCurly,
            Token::OpenParen => TokenV::OpenParen,
            Token::CloseParen => TokenV::CloseParen,
            Token::Equals => TokenV::Equals,
            Token::Comma => TokenV::Comma,
            Token::Plus => TokenV::Plus,
            Token::Divide => TokenV::Divide,
            Token::Multiply => TokenV::Multiply,
            Token::And => TokenV::And,
            Token::Or => TokenV::Or,
            Token::Not => TokenV::Not,
            Token::Greater => TokenV::Greater,
            Token::GreaterEq => TokenV::GreaterEq,
            Token::Lesser => TokenV::Lesser,
            Token::LesserEq => TokenV::LesserEq,
            Token::Project => TokenV::Project,
            Token::Select => TokenV::Select,
            Token::Join => TokenV::Join,
            Token::LeftJoin => TokenV::LeftJoin,
            Token::RightJoin => TokenV::RightJoin,
            Token::FullJoin => TokenV::FullJoin,
            Token::Union => TokenV::Union,
            Token::Intersect => TokenV::Intersect,
            Token::Minus => TokenV::Minus,
            Token::Symbol(s) => TokenV::Symbol(s@),
            Token::String(s) => TokenV::String(s@),
            Token::Number(s) => TokenV::Number(s@),
            Token::EOF => TokenV::EOF,
        }
    }
}

impl DeepView for Token {
    type V = TokenV;

    open spec fn deep_view(&self) -> TokenV {
        self.view()
    }
}

impl Token {
    /// A structural copy of this token, with the same model.
    pub fn dup(&self) -> (t: Token)
        ensures
            t@ == self@,
    {
        match self {
            Token::OpenCurly => Token::OpenCurly,
            Token::CloseCurly => Token::CloseCurly,
            Token::OpenParen => Token::OpenParen,
            Token::CloseParen => Token::CloseParen,
            Token::Equals => Token::Equals,
            Token::Comma => Token::Comma,
            Token::Plus => Token::Plus,
            Token::Divide => Token::Divide,
            Token::Multiply => Token::Multiply,
            Token::And => Token::And,
            Token::Or => Token::Or,
            Token::Not => Token::Not,
            Token::Greater => Token::Greater,
            Token::GreaterEq => Token::GreaterEq,
            Token::Lesser => Token::Lesser,
            Token::LesserEq => Token::LesserEq,
            Token::Project => Token::Project,
            Token::Select => Token::Select,
            Token::Join => Token::Join,
            Token::LeftJoin => Token::LeftJoin,
            Token::RightJoin => Token::RightJoin,
            Token::FullJoin => Token::FullJoin,
            Token::Union => Token::Union,
            Token::Intersect => Token::Intersect,
            Token::Minus => Token::Minus,
            Token::Symbol(s) => Token::Symbol(s.clone()),
            Token::String(s) => Token::String(s.clone()),
            Token::Number(s) => Token::Number(s.clone()),
            Token::EOF => Token::EOF,
        }
    }
}

/// Index just past the run of alphanumeric characters starting at `i`.
pub open spec fn word_end(s: Seq<char>, i: int) -> int
    decreases s.len() - i,
{
    if i < s.len() && char_is_alphanumeric(s[i]) {
        word_end(s, i + 1)
    } else {
        i
    }
}

/// Index just past the run of numeric characters starting at `i`.
pub open spec fn num_end(s: Seq<char>, i: int) -> int
    decreases s.len() - i,
{
    if i < s.len() && char_is_numeric(s[i]) {
        num_end(s, i + 1)
    } else {
        i
    }
}

/// Index of the first occurrence of the quote `q` at or after `i`.
pub open spec fn close_quote(s: Seq<char>, i: int, q: char) -> Option<int>
    decreases s.len() - i,
{
    if i >= s.len() {
        None
    } else if s[i] == q {
        Some(i)
    } else {
        close_quote(s, i + 1, q)
    }
}

/// The token an identifier run lexes to: one of the fixed keywords, or a
/// symbol literal.
pub open spec fn word_token(w: Seq<char>) -> TokenV {
    if w == "project"@ {
        TokenV::Project
    } else if w == "select"@ {
        TokenV::Select
    } else if w == "join"@ {
        TokenV::Join
    } else if w == "rightJoin"@ {
        TokenV::RightJoin
    } else if w == "leftJoin"@ {
        TokenV::LeftJoin
    } else if w == "fullJoin"@ {
        TokenV::FullJoin
    } else if w == "intersect"@ {
        TokenV::Intersect
    } else if w == "union"@ {
        TokenV::Union
    } else if w == "and"@ {
        TokenV::And
    } else if w == "or"@ {
        TokenV::Or
    } else if w == "not"@ {
        TokenV::Not
    } else {
        TokenV::Symbol(w)
    }
}

/// A resumption index that is past `i` and within the text, whatever `j` is.
/// Where a scan really stopped at `j` with `i < j <= s.len()`, this is `j`.
pub open spec fn next_pos(s: Seq<char>, i: int, j: int) -> int {
    if i + 1 <= j <= s.len() {
        j
    } else if i + 1 <= s.len() {
        i + 1
    } else {
        s.len() as int
    }
}

/// What lexing the text from index `i` onward, with `acc` already produced,
/// yields: the full token sequence ending in the end-of-line sentinel, or
/// the first lexing failure.
pub open spec fn spec_tokenize(s: Seq<char>, i: int, acc: Seq<TokenV>) -> Result<
    Seq<TokenV>,
    LexError,
>
    decreases s.len() - i,
{
    if !(0 <= i < s.len()) {
        Ok(acc.push(TokenV::EOF))
    } else {
        let c = s[i];
        if c == '{' {
            spec_tokenize(s, i + 1, acc.push(TokenV::OpenCurly))
        } else if c == '}' {
            spec_tokenize(s, i + 1, acc.push(TokenV::CloseCurly))
        } else if c == '(' {
            spec_tokenize(s, i + 1, acc.push(TokenV::OpenParen))
        } else if c == ')' {
            spec_tokenize(s, i + 1, acc.push(TokenV::CloseParen))
        } else if c == '=' {
            spec_tokenize(s, i + 1, acc.push(TokenV::Equals))
        } else if c == ',' {
            spec_tokenize(s, i + 1, acc.push(TokenV::Comma))
        } else if c == '-' {
            spec_tokenize(s, i + 1, acc.push(TokenV::Minus))
        } else if c == '+' {
            spec_tokenize(s, i + 1, acc.push(TokenV::Plus))
        } else if c == '*' {
            spec_tokenize(s, i + 1, acc.push(TokenV::Multiply))
        } else if c == '/' {
            spec_tokenize(s, i + 1, acc.push(TokenV::Divide))
        } else if c == '>' {
            if i + 1 < s.len() && s[i + 1] == '=' {
                spec_tokenize(s, i + 2, acc.push(TokenV::GreaterEq))
            } else {
                spec_tokenize(s, i + 1, acc.push(TokenV::Greater))
            }
        } else if c == '<' {
            if i + 1 < s.len() && s[i + 1] == '=' {
                spec_tokenize(s, i + 2, acc.push(TokenV::LesserEq))
            } else {
                spec_tokenize(s, i + 1, acc.push(TokenV::Lesser))
            }
        } else if c == '"' || c == '\'' {
            match close_quote(s, i + 1, c) {
                None => Err(LexError::UnterminatedString),
                Some(j) => spec_tokenize(
                    s,
                    next_pos(s, i, j + 1),
                    acc.push(TokenV::String(s.subrange(i + 1, j))),
                ),
            }
        } else if char_is_whitespace(c) {
            spec_tokenize(s, i + 1, acc)
        } else if char_is_alphabetic(c) {
            let e = next_pos(s, i, word_end(s, i + 1));
            spec_tokenize(s, e, acc.push(word_token(s.subrange(i, e))))
        } else if char_is_numeric(c) {
            let e = next_pos(s, i, num_end(s, i + 1));
            spec_tokenize(s, e, acc.push(TokenV::Number(s.subrange(i, e))))
        } else {
            Err(LexError::UnrecognizedChar(c))
        }
    }
}

/// Collects the identifier or number run that starts at `i` (whose first
/// character has already been classified): the run's text and the index
/// just past it.  `numeric` selects the continuation class: numeric runs
/// for number literals, alphanumeric runs for identifiers.
fn scan_run(text: &str, i: usize, len: usize, numeric: bool) -> (r: (String, usize))
    requires
        len == text@.len(),
        i < len,
    ensures
        i < r.1 <= len,
        r.1 == if numeric {
            num_end(text@, i + 1)
        } else {
            word_end(text@, i + 1)
        },
        r.0@ == text@.subrange(i as int, r.1 as int),
{
    let mut word = String::new();
    push_char(&mut word, text.get_char(i));
    let mut j: usize = i + 1;
    loop
        invariant
            i < j <= len,
            len == text@.len(),
            word@ == text@.subrange(i as int, j as int),
            numeric ==> num_end(text@, i + 1) == num_end(text@, j as int),
            !numeric ==> word_end(text@, i + 1) == word_end(text@, j as int),
        ensures
            i < j <= len,
            word@ == text@.subrange(i as int, j as int),
            numeric ==> j == num_end(text@, i + 1),
            !numeric ==> j == word_end(text@, i + 1),
        decreases len - j,
    {
        if j >= len {
            break ;
        }
        let c = text.get_char(j);
        let more = if numeric {
            is_numeric_char(c)
        } else {
            is_alphanumeric_char(c)
        };
        if !more {
            break ;
        }
        push_char(&mut word, c);
        proof {
            assert(text@.subrange(i as int, j as int).push(text@[j as int]) =~= text@.subrange(
                i as int,
                j as int + 1,
            ));
        }
        j = j + 1;
    }
    (word, j)
}

/// The token for a collected identifier run: matched against the keyword
/// table, with unmatched runs becoming symbol literals.
fn keyword_or_symbol(word: String) -> (t: Token)
    ensures
        t@ == word_token(word@),
{
    if string_eq_lit(&word, "project") {
        Token::Project
    } else if string_eq_lit(&word, "select") {
        Token::Select
    } else if string_eq_lit(&word, "join") {
        Token::Join
    } else if string_eq_lit(&word, "rightJoin") {
        Token::RightJoin
    } else if string_eq_lit(&word, "leftJoin") {
        Token::LeftJoin
    } else if string_eq_lit(&word, "fullJoin") {
        Token::FullJoin
    } else if string_eq_lit(&word, "intersect") {
        Token::Intersect
    } else if string_eq_lit(&word, "union") {
        Token::Union
    } else if string_eq_lit(&word, "and") {
        Token::And
    } else if string_eq_lit(&word, "or") {
        Token::Or
    } else if string_eq_lit(&word, "not") {
        Token::Not
    } else {
        Token::Symbol(word)
    }
}

/// Collects a quoted literal's body: the text strictly between the opening
/// quote (just before `i`) and the first following quote `q`, and the index
/// of that closing quote.  Fails when the line ends first.
fn scan_quoted(text: &str, i: usize, len: usize, q: char) -> (r: Result<(String, usize), LexError>)
    requires
        len == text@.len(),
        i <= len,
    ensures
        match r {
            Ok(p) => close_quote(text@, i as int, q) == Some(p.1 as int) && i <= p.1 < len
                && p.0@ == text@.subrange(i as int, p.1 as int),
            Err(e) => close_quote(text@, i as int, q) is None && e == LexError::UnterminatedString,
        },
{
    let mut word = String::new();
    let mut j: usize = i;
    loop
        invariant
            i <= j <= len,
            len == text@.len(),
            word@ == text@.subrange(i as int, j as int),
            close_quote(text@, i as int, q) == close_quote(text@, j as int, q),
        decreases len - j,
    {
        if j >= len {
            return Err(LexError::UnterminatedString);
        }
        let c = text.get_char(j);
        if c == q {
            return Ok((word, j));
        }
        push_char(&mut word, c);
        proof {
            assert(text@.subrange(i as int, j as int).push(text@[j as int]) =~= text@.subrange(
                i as int,
                j as int + 1,
            ));
        }
        j = j + 1;
    }
}

/// Lexes one line of text into its token sequence, ending in the `EOF`
/// sentinel.  Identifier runs become keywords or symbols, digit runs become
/// number literals, quoted runs become string literals, `>` and `<` greedily
/// take a following `=`.  Fails on a character no rule matches and on a
/// quoted literal the line ends inside of.
pub fn get_tokens(text: &str) -> (r: Result<Vec<Token>, LexError>)
    ensures
        match r {
            Ok(tokens) => spec_tokenize(text@, 0, Seq::empty()) == Ok::<_, LexError>(
                tokens.deep_view(),
            ),
            Err(e) => spec_tokenize(text@, 0, Seq::empty()) == Err::<Seq<TokenV>, _>(e),
        },
{
    let len = text.unicode_len();
    let mut tokens: Vec<Token> = Vec::new();
    let mut i: usize = 0;
    proof {
        assert(tokens.deep_view() =~= Seq::<TokenV>::empty());
    }
    while i < len
        invariant
            i <= len,
            len == text@.len(),
            spec_tokenize(text@, 0, Seq::empty()) == spec_tokenize(
                text@,
                i as int,
                tokens.deep_view(),
            ),
        decreases len - i,
    {
        let ghost pre = tokens.deep_view();
        let c = text.get_char(i);
        match c {
            '{' => {
                tokens.push(Token::OpenCurly);
                proof {
                    assert(tokens.deep_view() =~= pre.push(TokenV::OpenCurly));
                }
                i = i + 1;
            },
            '}' => {
                tokens.push(Token::CloseCurly);
                proof {
                    assert(tokens.deep_view() =~= pre.push(TokenV::CloseCurly));
                }
                i = i + 1;
            },
            '(' => {
                tokens.push(Token::OpenParen);
                proof {
                    assert(tokens.deep_view() =~= pre.push(TokenV::OpenParen));
                }
                i = i + 1;
            },
            ')' => {
                tokens.push(Token::CloseParen);
                proof {
                    assert(tokens.deep_view() =~= pre.push(TokenV::CloseParen));
                }
                i = i + 1;
            },
            '=' => {
                tokens.push(Token::Equals);
                proof {
                    assert(tokens.deep_view() =~= pre.push(TokenV::Equals));
                }
                i = i + 1;
            },
            ',' => {
                tokens.push(Token::Comma);
                proof {
                    assert(tokens.deep_view() =~= pre.push(TokenV::Comma));
                }
                i = i + 1;
            },
            '-' => {
                tokens.push(Token::Minus);
                proof {
                    assert(tokens.deep_view() =~= pre.push(TokenV::Minus));
                }
                i = i + 1;
            },
            '+' => {
                tokens.push(Token::Plus);
                proof {
                    assert(tokens.deep_view() =~= pre.push(TokenV::Plus));
                }
                i = i + 1;
            },
            '*' => {
                tokens.push(Token::Multiply);
                proof {
                    assert(tokens.deep_view() =~= pre.push(TokenV::Multiply));
                }
                i = i + 1;
            },
            '/' => {
                tokens.push(Token::Divide);
                proof {
                    assert(tokens.deep_view() =~= pre.push(TokenV::Divide));
                }
                i = i + 1;
            },
            '>' => {
                if i + 1 < len && text.get_char(i + 1) == '=' {
                    tokens.push(Token::GreaterEq);
                    proof {
                        assert(tokens.deep_view() =~= pre.push(TokenV::GreaterEq));
                    }
                    i = i + 2;
                } else {
                    tokens.push(Token::Greater);
                    proof {
                        assert(tokens.deep_view() =~= pre.push(TokenV::Greater));
                    }
                    i = i + 1;
                }
            },
            '<' => {
                if i + 1 < len && text.get_char(i + 1) == '=' {
                    tokens.push(Token::LesserEq);
                    proof {
                        assert(tokens.deep_view() =~= pre.push(TokenV::LesserEq));
                    }
                    i = i + 2;
                } else {
                    tokens.push(Token::Lesser);
                    proof {
                        assert(tokens.deep_view() =~= pre.push(TokenV::Lesser));
                    }
                    i = i + 1;
                }
            },
            '"' => {
                match scan_quoted(text, i + 1, len, '"') {
                    Err(e) => {
                        return Err(e);
                    },
                    Ok((word, j)) => {
                        tokens.push(Token::String(word));
                        proof {
                            assert(tokens.deep_view() =~= pre.push(
                                TokenV::String(text@.subrange(i as int + 1, j as int)),
                            ));
                        }
                        i = j + 1;
                    },
                }
            },
            '\'' => {
                match scan_quoted(text, i + 1, len, '\'') {
                    Err(e) => {
                        return Err(e);
                    },
                    Ok((word, j)) => {
                        tokens.push(Token::String(word));
                        proof {
                            assert(tokens.deep_view() =~= pre.push(
                                TokenV::String(text@.subrange(i as int + 1, j as int)),
                            ));
                        }
                        i = j + 1;
                    },
                }
            },
            _ => {
                if is_whitespace_char(c) {
                    i = i + 1;
                } else if is_alphabetic_char(c) {
                    let (word, end) = scan_run(text, i, len, false);
                    let t = keyword_or_symbol(word);
                    tokens.push(t);
                    proof {
                        assert(tokens.deep_view() =~= pre.push(
                            word_token(text@.subrange(i as int, end as int)),
                        ));
                    }
                    i = end;
                } else if is_numeric_char(c) {
                    let (word, end) = scan_run(text, i, len, true);
                    tokens.push(Token::Number(word));
                    proof {
                        assert(tokens.deep_view() =~= pre.push(
                            TokenV::Number(text@.subrange(i as int, end as int)),
                        ));
                    }
                    i = end;
                } else {
                    return Err(LexError::UnrecognizedChar(c));
                }
            },
        }
    }
    let ghost pre = tokens.deep_view();
    tokens.push(Token::EOF);
    proof {
        assert(tokens.deep_view() =~= pre.push(TokenV::EOF));
    }
    Ok(tokens)
}

} // verus!
