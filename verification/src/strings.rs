use vstd::prelude::*;
use vstd::string::StrSliceExecFns;
use vstd::string::StringExecFns;

verus! {

// Names for std's Unicode character classes.  Each is the result of the std
// predicate of the same name, which depends on the character alone.
pub uninterp spec fn char_is_whitespace(c: char) -> bool;

pub uninterp spec fn char_is_alphabetic(c: char) -> bool;

pub uninterp spec fn char_is_alphanumeric(c: char) -> bool;

pub uninterp spec fn char_is_numeric(c: char) -> bool;

/// Relies on char::is_whitespace: true exactly on characters with the
/// Unicode White_Space property; a function of the character alone.
#[verifier::external_body]
pub(crate) fn is_whitespace_char(c: char) -> (r: bool)
    ensures
        r == char_is_whitespace(c),
{
    c.is_whitespace()
}

/// Relies on char::is_alphabetic: true exactly on characters in the Unicode
/// Alphabetic derived property; a function of the character alone.
#[verifier::external_body]
pub(crate) fn is_alphabetic_char(c: char) -> (r: bool)
    ensures
        r == char_is_alphabetic(c),
{
    c.is_alphabetic()
}

/// Relies on char::is_alphanumeric: true exactly on alphabetic or numeric
/// characters; a function of the character alone.
#[verifier::external_body]
pub(crate) fn is_alphanumeric_char(c: char) -> (r: bool)
    ensures
        r == char_is_alphanumeric(c),
{
    c.is_alphanumeric()
}

/// Relies on char::is_numeric: true exactly on characters in the Unicode
/// number categories; a function of the character alone.
#[verifier::external_body]
pub(crate) fn is_numeric_char(c: char) -> (r: bool)
    ensures
        r == char_is_numeric(c),
{
    c.is_numeric()
}

/// Relies on String::push: appends the given character at the end.
#[verifier::external_body]
pub(crate) fn push_char(s: &mut String, c: char)
    ensures
        final(s)@ == old(s)@.push(c),
{
    s.push(c)
}

/// Relies on String::pop: removes and returns the last character, or returns
/// None and leaves the string unchanged when it is empty.
#[verifier::external_body]
pub(crate) fn pop_char(s: &mut String) -> (r: Option<char>)
    ensures
        old(s)@.len() == 0 ==> final(s)@ == old(s)@ && r is None,
        old(s)@.len() > 0 ==> final(s)@ == old(s)@.take(old(s)@.len() - 1) && r == Some(
            old(s)@.last(),
        ),
{
    s.pop()
}

/// Strict lexicographic order on character sequences, by code point.
/// A proper prefix precedes every sequence it is a prefix of.
pub open spec fn lex_lt(a: Seq<char>, b: Seq<char>) -> bool
    decreases a.len(),
{
    if b.len() == 0 {
        false
    } else if a.len() == 0 {
        true
    } else if (a[0] as u32) < (b[0] as u32) {
        true
    } else if (b[0] as u32) < (a[0] as u32) {
        false
    } else {
        lex_lt(a.skip(1), b.skip(1))
    }
}

/// Strict lexicographic comparison of two strings, character by character.
/// This is the order behind every `<`, `<=`, `>`, `>=` of the condition
/// evaluator: strings are never read as numbers.
pub fn str_lt(a: &str, b: &str) -> (r: bool)
    ensures
        r == lex_lt(a@, b@),
{
    let alen = a.unicode_len();
    let blen = b.unicode_len();
    let mut i: usize = 0;
    proof {
        assert(a@.skip(0) =~= a@);
        assert(b@.skip(0) =~= b@);
    }
    loop
        invariant
            i <= alen,
            i <= blen,
            alen == a@.len(),
            blen == b@.len(),
            lex_lt(a@, b@) == lex_lt(a@.skip(i as int), b@.skip(i as int)),
        decreases alen - i,
    {
        if i >= blen {
            proof {
                assert(b@.skip(i as int).len() == 0);
            }
            return false;
        }
        if i >= alen {
            proof {
                assert(a@.skip(i as int).len() == 0);
                assert(b@.skip(i as int).len() > 0);
            }
            return true;
        }
        let ca = a.get_char(i);
        let cb = b.get_char(i);
        proof {
            assert(a@.skip(i as int)[0] == a@[i as int]);
            assert(b@.skip(i as int)[0] == b@[i as int]);
        }
        if (ca as u32) < (cb as u32) {
            return true;
        }
        if (cb as u32) < (ca as u32) {
            return false;
        }
        proof {
            assert(a@.skip(i as int).skip(1) =~= a@.skip(i as int + 1));
            assert(b@.skip(i as int).skip(1) =~= b@.skip(i as int + 1));
        }
        i = i + 1;
    }
}

/// The text of the boolean `true`.
pub open spec fn true_chars() -> Seq<char> {
    seq!['t', 'r', 'u', 'e']
}

/// The text of the boolean `false`.
pub open spec fn false_chars() -> Seq<char> {
    seq!['f', 'a', 'l', 's', 'e']
}

/// The text a boolean renders to.
pub open spec fn bool_chars(b: bool) -> Seq<char> {
    if b {
        true_chars()
    } else {
        false_chars()
    }
}

/// Renders a boolean as its literal text, the result of every comparison
/// and boolean operator of the condition evaluator.
pub fn bool_string(b: bool) -> (r: String)
    ensures
        r@ == bool_chars(b),
{
    proof {
        reveal_strlit("true");
        reveal_strlit("false");
        assert("true"@ =~= true_chars());
        assert("false"@ =~= false_chars());
    }
    if b {
        String::from_str("true")
    } else {
        String::from_str("false")
    }
}

/// Compares a string with a literal.
pub(crate) fn string_eq_lit(s: &String, lit: &str) -> (r: bool)
    ensures
        r == (s@ == lit@),
{
    let l = String::from_str(lit);
    *s == l
}

/// How a string is read back as a boolean: exactly the text `true` or
/// `false`, anything else is rejected.
pub open spec fn spec_parse_bool(s: Seq<char>) -> Option<bool> {
    if s == true_chars() {
        Some(true)
    } else if s == false_chars() {
        Some(false)
    } else {
        None
    }
}

/// Reads a string back as a boolean, accepting exactly `true` and `false`.
pub fn parse_bool(s: &String) -> (r: Option<bool>)
    ensures
        r == spec_parse_bool(s@),
{
    proof {
        reveal_strlit("true");
        reveal_strlit("false");
        assert("true"@ =~= true_chars());
        assert("false"@ =~= false_chars());
    }
    if string_eq_lit(s, "true") {
        Some(true)
    } else if string_eq_lit(s, "false") {
        Some(false)
    } else {
        None
    }
}

} // verus!
