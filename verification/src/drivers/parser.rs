//! Lexer and recursive-descent parser for driver expressions.
//!
//! Supports arithmetic, comparisons, logical operators, function calls,
//! ternary conditionals and variable references.

use vstd::prelude::*;
use vstd::string::*;

use super::expression::{BinaryOp, ExprModel, ExprNode, Expression};
use super::DriverError;
use crate::text::{all_digits, chars_of, decimal, is_digit, push_decimal, string_push};

verus! {

// ---------------------------------------------------------------------------
// Tokens.
// ---------------------------------------------------------------------------

/// A token, as a mathematical value.
pub enum Tok {
    Number(Seq<char>),
    Ident(Seq<char>),
    Plus,
    Minus,
    Star,
    Slash,
    Percent,
    Caret,
    LParen,
    RParen,
    Comma,
    Less,
    LessEq,
    Greater,
    GreaterEq,
    EqEq,
    NotEq,
    And,
    Or,
    Question,
    Colon,
}

#[derive(Debug)]
enum Token {
    /// A number's text.
    Number(String),
    Ident(String),
    Plus,
    Minus,
    Star,
    Slash,
    Percent,
    Caret,
    LParen,
    RParen,
    Comma,
    Less,
    LessEq,
    Greater,
    GreaterEq,
    EqEq,
    NotEq,
    And,
    Or,
    Question,
    Colon,
}

spec fn tok_model(t: Token) -> Tok {
    match t {
        Token::Number(s) => Tok::Number(s@),
        Token::Ident(s) => Tok::Ident(s@),
        Token::Plus => Tok::Plus,
        Token::Minus => Tok::Minus,
        Token::Star => Tok::Star,
        Token::Slash => Tok::Slash,
        Token::Percent => Tok::Percent,
        Token::Caret => Tok::Caret,
        Token::LParen => Tok::LParen,
        Token::RParen => Tok::RParen,
        Token::Comma => Tok::Comma,
        Token::Less => Tok::Less,
        Token::LessEq => Tok::LessEq,
        Token::Greater => Tok::Greater,
        Token::GreaterEq => Tok::GreaterEq,
        Token::EqEq => Tok::EqEq,
        Token::NotEq => Tok::NotEq,
        Token::And => Tok::And,
        Token::Or => Tok::Or,
        Token::Question => Tok::Question,
        Token::Colon => Tok::Colon,
    }
}

spec fn toks_model(ts: Seq<Token>) -> Seq<Tok> {
    ts.map_values(|t: Token| tok_model(t))
}

// ---------------------------------------------------------------------------
// The lexical grammar.
// ---------------------------------------------------------------------------

pub open spec fn is_space(c: char) -> bool {
    c == ' ' || c == '\t' || c == '\n' || c == '\r'
}

pub open spec fn is_alpha(c: char) -> bool {
    ('a' <= c && c <= 'z') || ('A' <= c && c <= 'Z')
}

pub open spec fn is_ident_start(c: char) -> bool {
    is_alpha(c) || c == '_'
}

pub open spec fn is_ident_char(c: char) -> bool {
    is_alpha(c) || is_digit(c) || c == '_'
}

pub open spec fn is_number_char(c: char) -> bool {
    is_digit(c) || c == '.'
}

/// The end of the run of digits and dots that starts at `i`.
pub open spec fn number_chars_end(cs: Seq<char>, i: int) -> int
    decreases cs.len() - i,
{
    if 0 <= i < cs.len() && is_number_char(cs[i]) {
        number_chars_end(cs, i + 1)
    } else {
        i
    }
}

/// The end of the run of digits that starts at `i`.
pub open spec fn digits_end(cs: Seq<char>, i: int) -> int
    decreases cs.len() - i,
{
    if 0 <= i < cs.len() && is_digit(cs[i]) {
        digits_end(cs, i + 1)
    } else {
        i
    }
}

/// The end of the run of identifier characters that starts at `i`.
pub open spec fn ident_end(cs: Seq<char>, i: int) -> int
    decreases cs.len() - i,
{
    if 0 <= i < cs.len() && is_ident_char(cs[i]) {
        ident_end(cs, i + 1)
    } else {
        i
    }
}

/// The end of the number that starts at `i`: digits and dots, then an
/// optional exponent marker `e`/`E` with an optional sign and digits.
pub open spec fn number_end(cs: Seq<char>, i: int) -> int {
    let j = number_chars_end(cs, i);
    if 0 <= j < cs.len() && (cs[j] == 'e' || cs[j] == 'E') {
        let k = if j + 1 < cs.len() && (cs[j + 1] == '+' || cs[j + 1] == '-') {
            j + 2
        } else {
            j + 1
        };
        digits_end(cs, k)
    } else {
        j
    }
}

/// The exponent after the marker: an optional sign and at least one digit.
pub open spec fn exponent_ok(t: Seq<char>) -> bool {
    let u = if t.len() > 0 && (t[0] == '+' || t[0] == '-') {
        t.drop_first()
    } else {
        t
    };
    u.len() > 0 && all_digits(u)
}

/// `f64::from_str` syntax for text that starts with a digit or a dot:
/// digits with at most one dot and at least one digit, then optionally
/// `e`/`E`, a sign, and at least one digit.
pub open spec fn float_syntax(s: Seq<char>) -> bool {
    let j = number_chars_end(s, 0);
    let m = s.take(j);
    &&& forall|a: int, b: int| 0 <= a < b < m.len() ==> !(m[a] == '.' && m[b] == '.')
    &&& exists|a: int| 0 <= a < m.len() && is_digit(#[trigger] m[a])
    &&& j < s.len() ==> (s[j] == 'e' || s[j] == 'E') && exponent_ok(s.skip(j + 1))
}

pub proof fn lemma_number_chars_end(cs: Seq<char>, i: int)
    requires
        0 <= i <= cs.len(),
    ensures
        i <= number_chars_end(cs, i) <= cs.len(),
        forall|k: int| i <= k < number_chars_end(cs, i) ==> is_number_char(#[trigger] cs[k]),
        number_chars_end(cs, i) < cs.len() ==> !is_number_char(cs[number_chars_end(cs, i)]),
    decreases cs.len() - i,
{
    if i < cs.len() && is_number_char(cs[i]) {
        lemma_number_chars_end(cs, i + 1);
    }
}

pub proof fn lemma_digits_end(cs: Seq<char>, i: int)
    requires
        0 <= i <= cs.len(),
    ensures
        i <= digits_end(cs, i) <= cs.len(),
        forall|k: int| i <= k < digits_end(cs, i) ==> is_digit(#[trigger] cs[k]),
        digits_end(cs, i) < cs.len() ==> !is_digit(cs[digits_end(cs, i)]),
    decreases cs.len() - i,
{
    if i < cs.len() && is_digit(cs[i]) {
        lemma_digits_end(cs, i + 1);
    }
}

pub proof fn lemma_ident_end(cs: Seq<char>, i: int)
    requires
        0 <= i <= cs.len(),
    ensures
        i <= ident_end(cs, i) <= cs.len(),
        forall|k: int| i <= k < ident_end(cs, i) ==> is_ident_char(#[trigger] cs[k]),
        ident_end(cs, i) < cs.len() ==> !is_ident_char(cs[ident_end(cs, i)]),
    decreases cs.len() - i,
{
    if i < cs.len() && is_ident_char(cs[i]) {
        lemma_ident_end(cs, i + 1);
    }
}

pub proof fn lemma_number_end(cs: Seq<char>, i: int)
    requires
        0 <= i < cs.len(),
        is_number_char(cs[i]),
    ensures
        i < number_end(cs, i) <= cs.len(),
{
    lemma_number_chars_end(cs, i);
    lemma_number_chars_end(cs, i + 1);
    let j = number_chars_end(cs, i);
    if 0 <= j < cs.len() && (cs[j] == 'e' || cs[j] == 'E') {
        let k = if j + 1 < cs.len() && (cs[j + 1] == '+' || cs[j + 1] == '-') {
            j + 2
        } else {
            j + 1
        };
        lemma_digits_end(cs, k);
    }
}

pub open spec fn cons(t: Tok, r: Result<Seq<Tok>, Seq<char>>) -> Result<Seq<Tok>, Seq<char>> {
    match r {
        Ok(ts) => Ok(seq![t] + ts),
        Err(e) => Err(e),
    }
}

pub open spec fn next_is(cs: Seq<char>, i: int, c: char) -> bool {
    i + 1 < cs.len() && cs[i + 1] == c
}

/// The tokens of `cs[i..]`, or the message of the first lexical error.
pub open spec fn lex(cs: Seq<char>, i: int) -> Result<Seq<Tok>, Seq<char>>
    decreases cs.len() - i,
{
    if i < 0 || i >= cs.len() {
        Ok(Seq::empty())
    } else {
        let c = cs[i];
        if is_space(c) {
            lex(cs, i + 1)
        } else if c == '+' {
            cons(Tok::Plus, lex(cs, i + 1))
        } else if c == '-' {
            cons(Tok::Minus, lex(cs, i + 1))
        } else if c == '*' {
            if next_is(cs, i, '*') {
                cons(Tok::Caret, lex(cs, i + 2))
            } else {
                cons(Tok::Star, lex(cs, i + 1))
            }
        } else if c == '/' {
            cons(Tok::Slash, lex(cs, i + 1))
        } else if c == '%' {
            cons(Tok::Percent, lex(cs, i + 1))
        } else if c == '^' {
            cons(Tok::Caret, lex(cs, i + 1))
        } else if c == '(' {
            cons(Tok::LParen, lex(cs, i + 1))
        } else if c == ')' {
            cons(Tok::RParen, lex(cs, i + 1))
        } else if c == ',' {
            cons(Tok::Comma, lex(cs, i + 1))
        } else if c == '?' {
            cons(Tok::Question, lex(cs, i + 1))
        } else if c == ':' {
            cons(Tok::Colon, lex(cs, i + 1))
        } else if c == '<' {
            if next_is(cs, i, '=') {
                cons(Tok::LessEq, lex(cs, i + 2))
            } else {
                cons(Tok::Less, lex(cs, i + 1))
            }
        } else if c == '>' {
            if next_is(cs, i, '=') {
                cons(Tok::GreaterEq, lex(cs, i + 2))
            } else {
                cons(Tok::Greater, lex(cs, i + 1))
            }
        } else if c == '=' {
            if next_is(cs, i, '=') {
                cons(Tok::EqEq, lex(cs, i + 2))
            } else {
                Err("unexpected '='"@)
            }
        } else if c == '!' {
            if next_is(cs, i, '=') {
                cons(Tok::NotEq, lex(cs, i + 2))
            } else {
                Err("unexpected '!'"@)
            }
        } else if c == '&' {
            if next_is(cs, i, '&') {
                cons(Tok::And, lex(cs, i + 2))
            } else {
                Err("unexpected '&'"@)
            }
        } else if c == '|' {
            if next_is(cs, i, '|') {
                cons(Tok::Or, lex(cs, i + 2))
            } else {
                Err("unexpected '|'"@)
            }
        } else if is_number_char(c) {
            let j = number_end(cs, i);
            proof {
                lemma_number_end(cs, i);
            }
            let s = cs.subrange(i, j);
            if float_syntax(s) {
                cons(Tok::Number(s), lex(cs, j))
            } else {
                Err("invalid number `"@ + s + "`: invalid float literal"@)
            }
        } else if is_ident_start(c) {
            let j = ident_end(cs, i);
            proof {
                lemma_ident_end(cs, i + 1);
            }
            let s = cs.subrange(i, j);
            let t = if s == seq!['a', 'n', 'd'] {
                Tok::And
            } else if s == seq!['o', 'r'] {
                Tok::Or
            } else {
                Tok::Ident(s)
            };
            cons(t, lex(cs, j))
        } else {
            Err("unexpected character '"@ + seq![c] + "'"@)
        }
    }
}

// ---------------------------------------------------------------------------
// The lexer.
// ---------------------------------------------------------------------------

/// `ts` followed by the tokens of `r`, or `r`'s error.
pub open spec fn prepend(ts: Seq<Tok>, r: Result<Seq<Tok>, Seq<char>>) -> Result<Seq<Tok>, Seq<char>> {
    match r {
        Ok(rest) => Ok(ts + rest),
        Err(e) => Err(e),
    }
}

proof fn lemma_prepend_cons(ts: Seq<Tok>, t: Tok, r: Result<Seq<Tok>, Seq<char>>)
    ensures
        prepend(ts, cons(t, r)) == prepend(ts.push(t), r),
{
    if let Ok(rest) = r {
        assert(ts + (seq![t] + rest) =~= ts.push(t) + rest);
    }
}

/// The characters `cs[a..b]`.
fn sub_chars(cs: &Vec<char>, a: usize, b: usize) -> (r: Vec<char>)
    requires
        a <= b <= cs@.len(),
    ensures
        r@ == cs@.subrange(a as int, b as int),
{
    let mut r: Vec<char> = Vec::new();
    let mut i: usize = a;
    while i < b
        invariant
            a <= i <= b <= cs@.len(),
            r@ == cs@.subrange(a as int, i as int),
        decreases b - i,
    {
        r.push(cs[i]);
        i = i + 1;
        assert(r@ =~= cs@.subrange(a as int, i as int));
    }
    r
}

fn char_is_number(c: char) -> (b: bool)
    ensures
        b == is_number_char(c),
{
    ('0' <= c && c <= '9') || c == '.'
}

fn char_is_ident(c: char) -> (b: bool)
    ensures
        b == is_ident_char(c),
{
    ('a' <= c && c <= 'z') || ('A' <= c && c <= 'Z') || ('0' <= c && c <= '9') || c == '_'
}

/// The end of the number that starts at `i`.
fn scan_number(cs: &Vec<char>, i: usize) -> (r: usize)
    requires
        i < cs@.len(),
        is_number_char(cs@[i as int]),
    ensures
        r == number_end(cs@, i as int),
        i < r <= cs@.len(),
{
    proof {
        lemma_number_end(cs@, i as int);
    }
    let n = cs.len();
    let mut j = i;
    while j < n && char_is_number(cs[j])
        invariant
            i <= j <= n == cs@.len(),
            number_chars_end(cs@, j as int) == number_chars_end(cs@, i as int),
        decreases n - j,
    {
        j = j + 1;
    }
    if j < n && (cs[j] == 'e' || cs[j] == 'E') {
        let mut k = j + 1;
        if k < n && (cs[k] == '+' || cs[k] == '-') {
            k = k + 1;
        }
        let ghost k0 = k;
        while k < n && '0' <= cs[k] && cs[k] <= '9'
            invariant
                k0 <= k <= n == cs@.len(),
                digits_end(cs@, k as int) == digits_end(cs@, k0 as int),
            decreases n - k,
        {
            k = k + 1;
        }
        k
    } else {
        j
    }
}

/// The end of the identifier that starts at `i`.
fn scan_ident(cs: &Vec<char>, i: usize) -> (r: usize)
    requires
        i <= cs@.len(),
    ensures
        r == ident_end(cs@, i as int),
{
    let n = cs.len();
    let mut j = i;
    while j < n && char_is_ident(cs[j])
        invariant
            i <= j <= n == cs@.len(),
            ident_end(cs@, j as int) == ident_end(cs@, i as int),
        decreases n - j,
    {
        j = j + 1;
    }
    j
}

/// Whether the text is a number in `f64::from_str` syntax (see
/// [`float_syntax`]).
fn float_syntax_ok(s: &Vec<char>) -> (b: bool)
    ensures
        b == float_syntax(s@),
{
    let n = s.len();
    let mut j: usize = 0;
    let mut seen_dot = false;
    let mut two_dots = false;
    let mut has_digit = false;
    while j < n && char_is_number(s[j])
        invariant
            j <= n == s@.len(),
            number_chars_end(s@, j as int) == number_chars_end(s@, 0),
            forall|k: int| 0 <= k < j ==> is_number_char(#[trigger] s@[k]),
            seen_dot <==> exists|a: int| 0 <= a < j && #[trigger] s@[a] == '.',
            two_dots <==> exists|a: int, b: int| 0 <= a < b < j && #[trigger] s@[a] == '.' && #[trigger] s@[b] == '.',
            has_digit <==> exists|a: int| 0 <= a < j && is_digit(#[trigger] s@[a]),
        decreases n - j,
    {
        let c = s[j];
        if c == '.' {
            if seen_dot {
                let ghost a = choose|a: int| 0 <= a < j && #[trigger] s@[a] == '.';
                assert(s@[a] == '.' && s@[j as int] == '.');
                two_dots = true;
            }
            seen_dot = true;
        } else {
            has_digit = true;
        }
        j = j + 1;
        assert(two_dots ==> exists|a: int, b: int| 0 <= a < b < j && #[trigger] s@[a] == '.' && #[trigger] s@[b] == '.');
        assert(!two_dots ==> !exists|a: int, b: int| 0 <= a < b < j && #[trigger] s@[a] == '.' && #[trigger] s@[b] == '.') by {
            if !two_dots {
                assert forall|a: int, b: int| 0 <= a < b < j implies !(#[trigger] s@[a] == '.' && #[trigger] s@[b] == '.') by {
                    if b == j - 1 && s@[b] == '.' && s@[a] == '.' {
                        assert(exists|x: int| 0 <= x < j - 1 && #[trigger] s@[x] == '.');
                    }
                }
            }
        }
    }
    let ghost m = s@.take(j as int);
    assert(number_chars_end(s@, j as int) == j as int);
    assert(two_dots <==> exists|a: int, b: int| 0 <= a < b < m.len() && #[trigger] m[a] == '.' && #[trigger] m[b] == '.') by {
        if two_dots {
            let (a, b) = choose|a: int, b: int| 0 <= a < b < j && #[trigger] s@[a] == '.' && #[trigger] s@[b] == '.';
            assert(m[a] == '.' && m[b] == '.');
        }
        if exists|a: int, b: int| 0 <= a < b < m.len() && #[trigger] m[a] == '.' && #[trigger] m[b] == '.' {
            let (a, b) = choose|a: int, b: int| 0 <= a < b < m.len() && #[trigger] m[a] == '.' && #[trigger] m[b] == '.';
            assert(s@[a] == '.' && s@[b] == '.');
        }
    }
    assert(has_digit <==> exists|a: int| 0 <= a < m.len() && is_digit(#[trigger] m[a])) by {
        if has_digit {
            let a = choose|a: int| 0 <= a < j && is_digit(#[trigger] s@[a]);
            assert(is_digit(m[a]));
        }
        if exists|a: int| 0 <= a < m.len() && is_digit(#[trigger] m[a]) {
            let a = choose|a: int| 0 <= a < m.len() && is_digit(#[trigger] m[a]);
            assert(is_digit(s@[a]));
        }
    }
    if two_dots || !has_digit {
        return false;
    }
    if j == n {
        return true;
    }
    if !(s[j] == 'e' || s[j] == 'E') {
        return false;
    }
    let ghost t = s@.skip(j + 1);
    let mut k = j + 1;
    if k < n && (s[k] == '+' || s[k] == '-') {
        k = k + 1;
    }
    let ghost u = s@.subrange(k as int, n as int);
    assert(u == if t.len() > 0 && (t[0] == '+' || t[0] == '-') { t.drop_first() } else { t });
    if k >= n {
        return false;
    }
    let mut q = k;
    while q < n
        invariant
            k <= q <= n == s@.len(),
            u == s@.subrange(k as int, n as int),
            j < n,
            j == number_chars_end(s@, 0),
            t == s@.skip(j + 1),
            u == if t.len() > 0 && (t[0] == '+' || t[0] == '-') { t.drop_first() } else { t },
            forall|x: int| k <= x < q ==> is_digit(#[trigger] s@[x]),
        decreases n - q,
    {
        if !('0' <= s[q] && s[q] <= '9') {
            assert(u[q - k] == s@[q as int]);
            return false;
        }
        q = q + 1;
    }
    assert forall|x: int| 0 <= x < u.len() implies is_digit(#[trigger] u[x]) by {
        assert(u[x] == s@[k + x]);
    }
    true
}

/// Splits the input into tokens.
fn tokenize(input: &str) -> (r: Result<Vec<Token>, DriverError>)
    ensures
        match lex(input@, 0) {
            Ok(ts) => r matches Ok(v) && toks_model(v@) == ts,
            Err(m) => r matches Err(DriverError::ParseError(s)) && s@ == m,
        },
{
    let chars = chars_of(input);
    let n = chars.len();
    let mut tokens: Vec<Token> = Vec::new();
    let mut i: usize = 0;
    assert(toks_model(tokens@) =~= Seq::<Tok>::empty());
    assert(prepend(Seq::<Tok>::empty(), lex(chars@, 0)) == lex(chars@, 0)) by {
        if let Ok(rest) = lex(chars@, 0) {
            assert(Seq::<Tok>::empty() + rest =~= rest);
        }
    }
    while i < n
        invariant
            i <= n == chars@.len(),
            chars@ == input@,
            lex(chars@, 0) == prepend(toks_model(tokens@), lex(chars@, i as int)),
        decreases n - i,
    {
        let ghost before = toks_model(tokens@);
        let c = chars[i];
        let two = i + 1 < n;
        let next = if two { chars[i + 1] } else { ' ' };
        let tok: Option<Token>;
        let step: usize;
        if c == ' ' || c == '\t' || c == '\n' || c == '\r' {
            tok = None;
            step = 1;
        } else if c == '+' {
            tok = Some(Token::Plus);
            step = 1;
        } else if c == '-' {
            tok = Some(Token::Minus);
            step = 1;
        } else if c == '*' {
            if two && next == '*' {
                tok = Some(Token::Caret);
                step = 2;
            } else {
                tok = Some(Token::Star);
                step = 1;
            }
        } else if c == '/' {
            tok = Some(Token::Slash);
            step = 1;
        } else if c == '%' {
            tok = Some(Token::Percent);
            step = 1;
        } else if c == '^' {
            tok = Some(Token::Caret);
            step = 1;
        } else if c == '(' {
            tok = Some(Token::LParen);
            step = 1;
        } else if c == ')' {
            tok = Some(Token::RParen);
            step = 1;
        } else if c == ',' {
            tok = Some(Token::Comma);
            step = 1;
        } else if c == '?' {
            tok = Some(Token::Question);
            step = 1;
        } else if c == ':' {
            tok = Some(Token::Colon);
            step = 1;
        } else if c == '<' {
            if two && next == '=' {
                tok = Some(Token::LessEq);
                step = 2;
            } else {
                tok = Some(Token::Less);
                step = 1;
            }
        } else if c == '>' {
            if two && next == '=' {
                tok = Some(Token::GreaterEq);
                step = 2;
            } else {
                tok = Some(Token::Greater);
                step = 1;
            }
        } else if c == '=' {
            if two && next == '=' {
                tok = Some(Token::EqEq);
                step = 2;
            } else {
                return Err(DriverError::ParseError(String::from_str("unexpected '='")));
            }
        } else if c == '!' {
            if two && next == '=' {
                tok = Some(Token::NotEq);
                step = 2;
            } else {
                return Err(DriverError::ParseError(String::from_str("unexpected '!'")));
            }
        } else if c == '&' {
            if two && next == '&' {
                tok = Some(Token::And);
                step = 2;
            } else {
                return Err(DriverError::ParseError(String::from_str("unexpected '&'")));
            }
        } else if c == '|' {
            if two && next == '|' {
                tok = Some(Token::Or);
                step = 2;
            } else {
                return Err(DriverError::ParseError(String::from_str("unexpected '|'")));
            }
        } else if char_is_number(c) {
            let end = scan_number(&chars, i);
            let text = sub_chars(&chars, i, end);
            if !float_syntax_ok(&text) {
                let mut msg = String::from_str("invalid number `");
                let t = crate::text::string_from_chars(&text);
                msg.append(t.as_str());
                msg.append("`: invalid float literal");
                return Err(DriverError::ParseError(msg));
            }
            tok = Some(Token::Number(crate::text::string_from_chars(&text)));
            step = end - i;
        } else if c == '_' || ('a' <= c && c <= 'z') || ('A' <= c && c <= 'Z') {
            let end = scan_ident(&chars, i);
            proof {
                lemma_ident_end(chars@, i + 1);
            }
            let text = sub_chars(&chars, i, end);
            if text.len() == 3 && text[0] == 'a' && text[1] == 'n' && text[2] == 'd' {
                assert(text@ =~= seq!['a', 'n', 'd']);
                tok = Some(Token::And);
            } else if text.len() == 2 && text[0] == 'o' && text[1] == 'r' {
                assert(text@ =~= seq!['o', 'r']);
                tok = Some(Token::Or);
            } else {
                assert(text@ != seq!['a', 'n', 'd']);
                assert(text@ != seq!['o', 'r']);
                tok = Some(Token::Ident(crate::text::string_from_chars(&text)));
            }
            step = end - i;
        } else {
            let mut msg = String::from_str("unexpected character '");
            string_push(&mut msg, c);
            msg.append("'");
            return Err(DriverError::ParseError(msg));
        }
        match tok {
            Some(t) => {
                proof {
                    lemma_prepend_cons(before, tok_model(t), lex(chars@, i + step));
                }
                tokens.push(t);
                assert(toks_model(tokens@) =~= before.push(tok_model(t)));
            },
            None => {},
        }
        i = i + step;
    }
    assert(lex(chars@, n as int) == Ok::<Seq<Tok>, Seq<char>>(Seq::empty()));
    assert(toks_model(tokens@) + Seq::<Tok>::empty() =~= toks_model(tokens@));
    Ok(tokens)
}

// ---------------------------------------------------------------------------
// The expression grammar, from loosest to tightest binding: ternary
// `c ? a : b` (right-associative), `||`/`or`, `&&`/`and`, comparisons,
// `+ -`, `* / %`, `^`/`**` (right-associative), unary `-`/`+`, and
// primaries: numbers, variables, calls `f(a, ...)` and parentheses.
// Each function gives the tree parsed from position `pos` and the position
// after it, or `None` on a syntax error.
// ---------------------------------------------------------------------------

pub open spec fn is_tok(t: Seq<Tok>, p: int, k: Tok) -> bool {
    0 <= p < t.len() && t[p] == k
}

/// The operator that token `k` stands for at binary level `lvl`
/// (5 `||`, 4 `&&`, 3 comparisons, 2 `+ -`, 1 `* / %`).
pub open spec fn bin_op(lvl: int, k: Tok) -> Option<BinaryOp> {
    if lvl == 5 {
        if k is Or { Some(BinaryOp::Or) } else { None }
    } else if lvl == 4 {
        if k is And { Some(BinaryOp::And) } else { None }
    } else if lvl == 3 {
        match k {
            Tok::Less => Some(BinaryOp::Less),
            Tok::LessEq => Some(BinaryOp::LessEq),
            Tok::Greater => Some(BinaryOp::Greater),
            Tok::GreaterEq => Some(BinaryOp::GreaterEq),
            Tok::EqEq => Some(BinaryOp::Equal),
            Tok::NotEq => Some(BinaryOp::NotEqual),
            _ => None,
        }
    } else if lvl == 2 {
        match k {
            Tok::Plus => Some(BinaryOp::Add),
            Tok::Minus => Some(BinaryOp::Sub),
            _ => None,
        }
    } else {
        match k {
            Tok::Star => Some(BinaryOp::Mul),
            Tok::Slash => Some(BinaryOp::Div),
            Tok::Percent => Some(BinaryOp::Mod),
            _ => None,
        }
    }
}

pub open spec fn op_at(t: Seq<Tok>, p: int, lvl: int) -> Option<BinaryOp> {
    if 0 <= p < t.len() {
        bin_op(lvl, t[p])
    } else {
        None
    }
}

pub open spec fn binary(op: BinaryOp, l: ExprModel, r: ExprModel) -> ExprModel {
    ExprModel::BinaryOp { op, left: Box::new(l), right: Box::new(r) }
}

/// The `Debug` text of a token: its variant's name, an identifier in
/// double quotes, a number as it was written.
pub open spec fn tok_text(k: Tok) -> Seq<char> {
    match k {
        Tok::Number(s) => "Number("@ + s + ")"@,
        Tok::Ident(s) => "Ident(\""@ + s + "\")"@,
        Tok::Plus => "Plus"@,
        Tok::Minus => "Minus"@,
        Tok::Star => "Star"@,
        Tok::Slash => "Slash"@,
        Tok::Percent => "Percent"@,
        Tok::Caret => "Caret"@,
        Tok::LParen => "LParen"@,
        Tok::RParen => "RParen"@,
        Tok::Comma => "Comma"@,
        Tok::Less => "Less"@,
        Tok::LessEq => "LessEq"@,
        Tok::Greater => "Greater"@,
        Tok::GreaterEq => "GreaterEq"@,
        Tok::EqEq => "EqEq"@,
        Tok::NotEq => "NotEq"@,
        Tok::And => "And"@,
        Tok::Or => "Or"@,
        Tok::Question => "Question"@,
        Tok::Colon => "Colon"@,
    }
}

/// The `Debug` text of an optional token: `None` or `Some(..)`.
pub open spec fn opt_tok_text(k: Option<Tok>) -> Seq<char> {
    match k {
        Some(x) => "Some("@ + tok_text(x) + ")"@,
        None => "None"@,
    }
}

/// The token at `p`, if any.
pub open spec fn tok_at(t: Seq<Tok>, p: int) -> Option<Tok> {
    if 0 <= p < t.len() {
        Some(t[p])
    } else {
        None
    }
}

/// The message for a missing token `k` where `got` stands.
pub open spec fn expected_text(k: Tok, got: Option<Tok>) -> Seq<char> {
    "expected "@ + tok_text(k) + ", got "@ + opt_tok_text(got)
}

/// The message for a token that cannot start an operand.
pub open spec fn unexpected_text(got: Option<Tok>) -> Seq<char> {
    "unexpected token: "@ + opt_tok_text(got)
}

/// `c ? a : b`, or the `||` level alone.
pub open spec fn p_ternary(t: Seq<Tok>, pos: int) -> Result<(ExprModel, int), Seq<char>>
    decreases t.len() - pos, 20int,
{
    match p_bin(t, pos, 5) {
        Err(m) => Err(m),
        Ok((c, p1)) => if is_tok(t, p1, Tok::Question) && p1 >= pos {
            match p_ternary(t, p1 + 1) {
                Err(m) => Err(m),
                Ok((a, p2)) => if is_tok(t, p2, Tok::Colon) && p2 > p1 {
                    match p_ternary(t, p2 + 1) {
                        Err(m) => Err(m),
                        Ok((b, p3)) => Ok((
                            ExprModel::Conditional {
                                condition: Box::new(c),
                                then_expr: Box::new(a),
                                else_expr: Box::new(b),
                            },
                            p3,
                        )),
                    }
                } else {
                    Err(expected_text(Tok::Colon, tok_at(t, p2)))
                },
            }
        } else {
            Ok((c, p1))
        },
    }
}

/// An operand of binary level `lvl`: the next tighter level.
pub open spec fn p_operand(t: Seq<Tok>, pos: int, lvl: int) -> Result<(ExprModel, int), Seq<char>>
    decreases t.len() - pos, 2 * lvl + 6,
{
    if lvl == 1 {
        p_power(t, pos)
    } else if lvl > 1 {
        p_bin(t, pos, lvl - 1)
    } else {
        Err(Seq::empty())
    }
}

/// A left-associative chain of operators of level `lvl`.
pub open spec fn p_bin(t: Seq<Tok>, pos: int, lvl: int) -> Result<(ExprModel, int), Seq<char>>
    decreases t.len() - pos, 2 * lvl + 7,
{
    if lvl < 1 {
        Err(Seq::empty())
    } else {
        match p_operand(t, pos, lvl) {
            Err(m) => Err(m),
            Ok((l, p1)) => if pos <= p1 <= t.len() {
                p_bin_rest(t, l, p1, lvl)
            } else {
                Err(Seq::empty())
            },
        }
    }
}

/// The rest of a chain of level `lvl` after its left part `left`.
pub open spec fn p_bin_rest(t: Seq<Tok>, left: ExprModel, pos: int, lvl: int) -> Result<(ExprModel, int), Seq<char>>
    decreases t.len() - pos, 2 * lvl + 6,
{
    if lvl < 1 {
        Err(Seq::empty())
    } else {
        match op_at(t, pos, lvl) {
            None => Ok((left, pos)),
            Some(op) => match p_operand(t, pos + 1, lvl) {
                Err(m) => Err(m),
                Ok((r, p2)) => if pos < p2 <= t.len() {
                    p_bin_rest(t, binary(op, left, r), p2, lvl)
                } else {
                    Err(Seq::empty())
                },
            },
        }
    }
}

/// `base ^ exponent`, right-associative, or a unary expression alone.
pub open spec fn p_power(t: Seq<Tok>, pos: int) -> Result<(ExprModel, int), Seq<char>>
    decreases t.len() - pos, 5int,
{
    match p_unary(t, pos) {
        Err(m) => Err(m),
        Ok((b, p1)) => if is_tok(t, p1, Tok::Caret) && p1 >= pos {
            match p_power(t, p1 + 1) {
                Err(m) => Err(m),
                Ok((e, p2)) => Ok((binary(BinaryOp::Pow, b, e), p2)),
            }
        } else {
            Ok((b, p1))
        },
    }
}

/// Unary minus (negation) and unary plus (no effect), then a primary.
pub open spec fn p_unary(t: Seq<Tok>, pos: int) -> Result<(ExprModel, int), Seq<char>>
    decreases t.len() - pos, 4int,
{
    if is_tok(t, pos, Tok::Minus) {
        match p_unary(t, pos + 1) {
            Err(m) => Err(m),
            Ok((e, p)) => Ok((ExprModel::Negate(Box::new(e)), p)),
        }
    } else if is_tok(t, pos, Tok::Plus) {
        p_unary(t, pos + 1)
    } else {
        p_primary(t, pos)
    }
}

/// A number, a variable, a call `name(args)`, or `( expression )`.
pub open spec fn p_primary(t: Seq<Tok>, pos: int) -> Result<(ExprModel, int), Seq<char>>
    decreases t.len() - pos, 3int,
{
    if !(0 <= pos < t.len()) {
        Err(unexpected_text(None))
    } else {
        match t[pos] {
            Tok::Number(text) => Ok((ExprModel::Literal(text), pos + 1)),
            Tok::Ident(name) => p_after_name(t, pos + 1, name),
            Tok::LParen => p_paren(t, pos + 1),
            _ => Err(unexpected_text(Some(t[pos]))),
        }
    }
}

/// After a name: a call's argument list in parentheses, or nothing (a
/// variable).
pub open spec fn p_after_name(t: Seq<Tok>, pos: int, name: Seq<char>) -> Result<(ExprModel, int), Seq<char>>
    decreases t.len() - pos, 22int,
{
    if is_tok(t, pos, Tok::LParen) {
        match p_args(t, pos + 1) {
            Err(m) => Err(m),
            Ok((args, p3)) => if is_tok(t, p3, Tok::RParen) {
                Ok((ExprModel::FunctionCall { name, args }, p3 + 1))
            } else {
                Err(expected_text(Tok::RParen, tok_at(t, p3)))
            },
        }
    } else {
        Ok((ExprModel::Variable(name), pos))
    }
}

/// The inside of parentheses and the closing parenthesis.
pub open spec fn p_paren(t: Seq<Tok>, pos: int) -> Result<(ExprModel, int), Seq<char>>
    decreases t.len() - pos, 23int,
{
    match p_ternary(t, pos) {
        Err(m) => Err(m),
        Ok((e, p2)) => if is_tok(t, p2, Tok::RParen) {
            Ok((e, p2 + 1))
        } else {
            Err(expected_text(Tok::RParen, tok_at(t, p2)))
        },
    }
}

/// A call's arguments, up to the closing parenthesis: none, or expressions
/// separated by commas.
pub open spec fn p_args(t: Seq<Tok>, pos: int) -> Result<(Seq<ExprModel>, int), Seq<char>>
    decreases t.len() - pos, 21int,
{
    if is_tok(t, pos, Tok::RParen) {
        Ok((Seq::empty(), pos))
    } else {
        match p_ternary(t, pos) {
            Err(m) => Err(m),
            Ok((a, p1)) => if pos <= p1 <= t.len() {
                p_args_rest(t, seq![a], p1)
            } else {
                Err(Seq::empty())
            },
        }
    }
}

pub open spec fn p_args_rest(t: Seq<Tok>, acc: Seq<ExprModel>, pos: int) -> Result<(Seq<ExprModel>, int), Seq<char>>
    decreases t.len() - pos, 2int,
{
    if is_tok(t, pos, Tok::Comma) {
        match p_ternary(t, pos + 1) {
            Err(m) => Err(m),
            Ok((a, p2)) => if pos < p2 <= t.len() {
                p_args_rest(t, acc.push(a), p2)
            } else {
                Err(Seq::empty())
            },
        }
    } else {
        Ok((acc, pos))
    }
}

/// The tree of a whole token list: an expression that uses every token, or
/// the message of the first syntax error.
pub open spec fn parse_tokens(t: Seq<Tok>) -> Result<ExprModel, Seq<char>> {
    match p_ternary(t, 0) {
        Err(m) => Err(m),
        Ok((e, p)) => if p < t.len() {
            Err("unexpected token at position "@ + decimal(p as nat))
        } else {
            Ok(e)
        },
    }
}

/// The tree of an expression's text, or the message of its first lexical
/// or syntax error.
pub open spec fn parse_text(s: Seq<char>) -> Result<ExprModel, Seq<char>> {
    match lex(s, 0) {
        Ok(t) => parse_tokens(t),
        Err(m) => Err(m),
    }
}

// ---------------------------------------------------------------------------
// The parser.
// ---------------------------------------------------------------------------

/// The `Debug` text of a token.
fn token_text(k: &Token) -> (r: String)
    ensures
        r@ == tok_text(tok_model(*k)),
{
    match k {
        Token::Number(s) => {
            let mut r = String::from_str("Number(");
            r.append(s.as_str());
            r.append(")");
            r
        },
        Token::Ident(s) => {
            let mut r = String::from_str("Ident(\"");
            r.append(s.as_str());
            r.append("\")");
            r
        },
        Token::Plus => String::from_str("Plus"),
        Token::Minus => String::from_str("Minus"),
        Token::Star => String::from_str("Star"),
        Token::Slash => String::from_str("Slash"),
        Token::Percent => String::from_str("Percent"),
        Token::Caret => String::from_str("Caret"),
        Token::LParen => String::from_str("LParen"),
        Token::RParen => String::from_str("RParen"),
        Token::Comma => String::from_str("Comma"),
        Token::Less => String::from_str("Less"),
        Token::LessEq => String::from_str("LessEq"),
        Token::Greater => String::from_str("Greater"),
        Token::GreaterEq => String::from_str("GreaterEq"),
        Token::EqEq => String::from_str("EqEq"),
        Token::NotEq => String::from_str("NotEq"),
        Token::And => String::from_str("And"),
        Token::Or => String::from_str("Or"),
        Token::Question => String::from_str("Question"),
        Token::Colon => String::from_str("Colon"),
    }
}

/// The `Debug` text of an optional token.
fn opt_token_text(got: Option<&Token>) -> (r: String)
    ensures
        r@ == opt_tok_text(match got {
            Some(k) => Some(tok_model(*k)),
            None => None,
        }),
{
    match got {
        Some(k) => {
            let mut r = String::from_str("Some(");
            let t = token_text(k);
            r.append(t.as_str());
            r.append(")");
            r
        },
        None => String::from_str("None"),
    }
}

/// The message for a token other than the expected one.
fn expected_message(expected: &Token, got: Option<&Token>) -> (r: String)
    ensures
        r@ == expected_text(
            tok_model(*expected),
            match got {
                Some(k) => Some(tok_model(*k)),
                None => None,
            },
        ),
{
    let mut r = String::from_str("expected ");
    let e = token_text(expected);
    r.append(e.as_str());
    r.append(", got ");
    let g = opt_token_text(got);
    r.append(g.as_str());
    r
}

/// The message for a token that cannot start an operand.
fn unexpected_message(got: Option<&Token>) -> (r: String)
    ensures
        r@ == unexpected_text(
            match got {
                Some(k) => Some(tok_model(*k)),
                None => None,
            },
        ),
{
    let mut r = String::from_str("unexpected token: ");
    let g = opt_token_text(got);
    r.append(g.as_str());
    r
}

/// Whether two tokens are equal.
fn same_token(a: &Token, b: &Token) -> (r: bool)
    ensures
        r == (tok_model(*a) == tok_model(*b)),
{
    match (a, b) {
        (Token::Number(x), Token::Number(y)) => crate::text::str_eq(x.as_str(), y.as_str()),
        (Token::Ident(x), Token::Ident(y)) => crate::text::str_eq(x.as_str(), y.as_str()),
        (Token::Plus, Token::Plus) => true,
        (Token::Minus, Token::Minus) => true,
        (Token::Star, Token::Star) => true,
        (Token::Slash, Token::Slash) => true,
        (Token::Percent, Token::Percent) => true,
        (Token::Caret, Token::Caret) => true,
        (Token::LParen, Token::LParen) => true,
        (Token::RParen, Token::RParen) => true,
        (Token::Comma, Token::Comma) => true,
        (Token::Less, Token::Less) => true,
        (Token::LessEq, Token::LessEq) => true,
        (Token::Greater, Token::Greater) => true,
        (Token::GreaterEq, Token::GreaterEq) => true,
        (Token::EqEq, Token::EqEq) => true,
        (Token::NotEq, Token::NotEq) => true,
        (Token::And, Token::And) => true,
        (Token::Or, Token::Or) => true,
        (Token::Question, Token::Question) => true,
        (Token::Colon, Token::Colon) => true,
        _ => false,
    }
}

/// The operator a token stands for at binary level `lvl`.
fn token_op(lvl: u8, k: &Token) -> (r: Option<BinaryOp>)
    ensures
        r == bin_op(lvl as int, tok_model(*k)),
{
    if lvl == 5 {
        match k {
            Token::Or => Some(BinaryOp::Or),
            _ => None,
        }
    } else if lvl == 4 {
        match k {
            Token::And => Some(BinaryOp::And),
            _ => None,
        }
    } else if lvl == 3 {
        match k {
            Token::Less => Some(BinaryOp::Less),
            Token::LessEq => Some(BinaryOp::LessEq),
            Token::Greater => Some(BinaryOp::Greater),
            Token::GreaterEq => Some(BinaryOp::GreaterEq),
            Token::EqEq => Some(BinaryOp::Equal),
            Token::NotEq => Some(BinaryOp::NotEqual),
            _ => None,
        }
    } else if lvl == 2 {
        match k {
            Token::Plus => Some(BinaryOp::Add),
            Token::Minus => Some(BinaryOp::Sub),
            _ => None,
        }
    } else {
        match k {
            Token::Star => Some(BinaryOp::Mul),
            Token::Slash => Some(BinaryOp::Div),
            Token::Percent => Some(BinaryOp::Mod),
            _ => None,
        }
    }
}

/// What a parse step promises: the grammar's tree and end position, or a
/// parse error with the grammar's message.
pub open spec fn parsed(g: Result<(ExprModel, int), Seq<char>>, r: Result<ExprNode, DriverError>, end: int) -> bool {
    match g {
        Ok((e, p)) => r matches Ok(n) && n.model() == e && end == p,
        Err(m) => r matches Err(DriverError::ParseError(s)) && s@ == m,
    }
}

pub open spec fn nodes_model(v: Seq<ExprNode>) -> Seq<ExprModel> {
    v.map_values(|n: ExprNode| n.model())
}

struct Parser<'a> {
    tokens: &'a [Token],
    pos: usize,
}

impl<'a> Parser<'a> {
    spec fn toks(&self) -> Seq<Tok> {
        toks_model(self.tokens@)
    }

    fn new(tokens: &'a [Token]) -> (p: Self)
        ensures
            p.tokens == tokens,
            p.pos == 0,
    {
        Parser { tokens, pos: 0 }
    }

    fn peek(&self) -> (r: Option<&Token>)
        ensures
            match r {
                Some(k) => self.pos < self.tokens@.len() && *k == self.tokens@[self.pos as int],
                None => self.pos >= self.tokens@.len(),
            },
    {
        if self.pos < self.tokens.len() {
            Some(&self.tokens[self.pos])
        } else {
            None
        }
    }

    /// Whether the next token is `k`.
    fn peek_is(&self, k: &Token) -> (b: bool)
        ensures
            b == is_tok(self.toks(), self.pos as int, tok_model(*k)),
    {
        match self.peek() {
            Some(t) => same_token(t, k),
            None => false,
        }
    }

    fn advance(&mut self) -> (r: Option<&'a Token>)
        ensures
            final(self).tokens == old(self).tokens,
            old(self).pos < old(self).tokens@.len() ==> r == Some(&old(self).tokens@[old(self).pos as int])
                && final(self).pos == old(self).pos + 1,
            old(self).pos >= old(self).tokens@.len() ==> r is None && final(self).pos == old(self).pos,
    {
        if self.pos < self.tokens.len() {
            let tok = &self.tokens[self.pos];
            self.pos = self.pos + 1;
            Some(tok)
        } else {
            None
        }
    }

    fn expect(&mut self, expected: &Token) -> (r: Result<(), DriverError>)
        requires
            old(self).pos <= old(self).tokens@.len(),
        ensures
            final(self).tokens == old(self).tokens,
            r is Ok <==> is_tok(old(self).toks(), old(self).pos as int, tok_model(*expected)),
            r is Ok ==> final(self).pos == old(self).pos + 1,
            r matches Err(e) ==> e matches DriverError::ParseError(m) && m@ == expected_text(
                tok_model(*expected),
                tok_at(old(self).toks(), old(self).pos as int),
            ),
            final(self).pos <= final(self).tokens@.len(),
    {
        let ghost t = self.toks();
        match self.advance() {
            Some(got) => {
                if same_token(got, expected) {
                    Ok(())
                } else {
                    Err(DriverError::ParseError(expected_message(expected, Some(got))))
                }
            },
            None => Err(DriverError::ParseError(expected_message(expected, None))),
        }
    }

    /// `c ? a : b`, or the `||` level alone.
    fn parse_ternary(&mut self) -> (r: Result<ExprNode, DriverError>)
        requires
            old(self).pos <= old(self).tokens@.len(),
        ensures
            final(self).tokens == old(self).tokens,
            parsed(p_ternary(old(self).toks(), old(self).pos as int), r, final(self).pos as int),
            r is Ok ==> old(self).pos <= final(self).pos <= final(self).tokens@.len(),
        decreases old(self).tokens@.len() - old(self).pos, 20int,
    {
        let cond = self.parse_or()?;
        if self.peek_is(&Token::Question) {
            self.advance();
            let then_expr = self.parse_ternary()?;
            self.expect(&Token::Colon)?;
            let else_expr = self.parse_ternary()?;
            Ok(ExprNode::Conditional {
                condition: Box::new(cond),
                then_expr: Box::new(then_expr),
                else_expr: Box::new(else_expr),
            })
        } else {
            Ok(cond)
        }
    }

    fn parse_or(&mut self) -> (r: Result<ExprNode, DriverError>)
        requires
            old(self).pos <= old(self).tokens@.len(),
        ensures
            final(self).tokens == old(self).tokens,
            parsed(p_bin(old(self).toks(), old(self).pos as int, 5), r, final(self).pos as int),
            r is Ok ==> old(self).pos <= final(self).pos <= final(self).tokens@.len(),
        decreases old(self).tokens@.len() - old(self).pos, 18int,
    {
        self.parse_level(5)
    }

    /// An operand of binary level `lvl`: the next tighter level.
    fn parse_operand(&mut self, lvl: u8) -> (r: Result<ExprNode, DriverError>)
        requires
            1 <= lvl <= 5,
            old(self).pos <= old(self).tokens@.len(),
        ensures
            final(self).tokens == old(self).tokens,
            parsed(p_operand(old(self).toks(), old(self).pos as int, lvl as int), r, final(self).pos as int),
            r is Ok ==> old(self).pos <= final(self).pos <= final(self).tokens@.len(),
        decreases old(self).tokens@.len() - old(self).pos, 2 * lvl + 6,
    {
        if lvl == 1 {
            self.parse_power()
        } else {
            self.parse_level(lvl - 1)
        }
    }

    /// A left-associative chain of operators of binary level `lvl`.
    fn parse_level(&mut self, lvl: u8) -> (r: Result<ExprNode, DriverError>)
        requires
            1 <= lvl <= 5,
            old(self).pos <= old(self).tokens@.len(),
        ensures
            final(self).tokens == old(self).tokens,
            parsed(p_bin(old(self).toks(), old(self).pos as int, lvl as int), r, final(self).pos as int),
            r is Ok ==> old(self).pos <= final(self).pos <= final(self).tokens@.len(),
        decreases old(self).tokens@.len() - old(self).pos, 2 * lvl + 7,
    {
        let ghost t = self.toks();
        let ghost start = self.pos as int;
        let mut left = self.parse_operand(lvl)?;
        loop
            invariant
                self.tokens == old(self).tokens,
                self.toks() == t,
                t == old(self).toks(),
                start == old(self).pos,
                1 <= lvl <= 5,
                start <= self.pos <= self.tokens@.len(),
                p_bin(t, start, lvl as int) == p_bin_rest(t, left.model(), self.pos as int, lvl as int),
            decreases self.tokens@.len() - self.pos,
        {
            let op = match self.peek() {
                Some(k) => token_op(lvl, k),
                None => None,
            };
            match op {
                None => {
                    return Ok(left);
                },
                Some(op) => {
                    self.advance();
                    let right = self.parse_operand(lvl)?;
                    left = ExprNode::BinaryOp { op, left: Box::new(left), right: Box::new(right) };
                },
            }
        }
    }

    fn parse_and(&mut self) -> (r: Result<ExprNode, DriverError>)
        requires
            old(self).pos <= old(self).tokens@.len(),
        ensures
            final(self).tokens == old(self).tokens,
            parsed(p_bin(old(self).toks(), old(self).pos as int, 4), r, final(self).pos as int),
            r is Ok ==> old(self).pos <= final(self).pos <= final(self).tokens@.len(),
        decreases old(self).tokens@.len() - old(self).pos, 16int,
    {
        self.parse_level(4)
    }

    fn parse_comparison(&mut self) -> (r: Result<ExprNode, DriverError>)
        requires
            old(self).pos <= old(self).tokens@.len(),
        ensures
            final(self).tokens == old(self).tokens,
            parsed(p_bin(old(self).toks(), old(self).pos as int, 3), r, final(self).pos as int),
            r is Ok ==> old(self).pos <= final(self).pos <= final(self).tokens@.len(),
        decreases old(self).tokens@.len() - old(self).pos, 14int,
    {
        self.parse_level(3)
    }

    fn parse_additive(&mut self) -> (r: Result<ExprNode, DriverError>)
        requires
            old(self).pos <= old(self).tokens@.len(),
        ensures
            final(self).tokens == old(self).tokens,
            parsed(p_bin(old(self).toks(), old(self).pos as int, 2), r, final(self).pos as int),
            r is Ok ==> old(self).pos <= final(self).pos <= final(self).tokens@.len(),
        decreases old(self).tokens@.len() - old(self).pos, 12int,
    {
        self.parse_level(2)
    }

    fn parse_multiplicative(&mut self) -> (r: Result<ExprNode, DriverError>)
        requires
            old(self).pos <= old(self).tokens@.len(),
        ensures
            final(self).tokens == old(self).tokens,
            parsed(p_bin(old(self).toks(), old(self).pos as int, 1), r, final(self).pos as int),
            r is Ok ==> old(self).pos <= final(self).pos <= final(self).tokens@.len(),
        decreases old(self).tokens@.len() - old(self).pos, 10int,
    {
        self.parse_level(1)
    }

    /// `base ^ exponent`, right-associative.
    fn parse_power(&mut self) -> (r: Result<ExprNode, DriverError>)
        requires
            old(self).pos <= old(self).tokens@.len(),
        ensures
            final(self).tokens == old(self).tokens,
            parsed(p_power(old(self).toks(), old(self).pos as int), r, final(self).pos as int),
            r is Ok ==> old(self).pos <= final(self).pos <= final(self).tokens@.len(),
        decreases old(self).tokens@.len() - old(self).pos, 5int,
    {
        let base = self.parse_unary()?;
        if self.peek_is(&Token::Caret) {
            self.advance();
            let exp = self.parse_power()?;
            Ok(ExprNode::BinaryOp { op: BinaryOp::Pow, left: Box::new(base), right: Box::new(exp) })
        } else {
            Ok(base)
        }
    }

    /// Unary minus and (no-op) unary plus.
    fn parse_unary(&mut self) -> (r: Result<ExprNode, DriverError>)
        requires
            old(self).pos <= old(self).tokens@.len(),
        ensures
            final(self).tokens == old(self).tokens,
            parsed(p_unary(old(self).toks(), old(self).pos as int), r, final(self).pos as int),
            r is Ok ==> old(self).pos <= final(self).pos <= final(self).tokens@.len(),
        decreases old(self).tokens@.len() - old(self).pos, 4int,
    {
        if self.peek_is(&Token::Minus) {
            self.advance();
            let expr = self.parse_unary()?;
            Ok(ExprNode::Negate(Box::new(expr)))
        } else if self.peek_is(&Token::Plus) {
            // Unary plus is a no-op but must be accepted.
            self.advance();
            self.parse_unary()
        } else {
            self.parse_primary()
        }
    }

    /// A number, a variable, a call `name(args)`, or `( expression )`.
    #[verifier::rlimit(40)]
    fn parse_primary(&mut self) -> (r: Result<ExprNode, DriverError>)
        requires
            old(self).pos <= old(self).tokens@.len(),
        ensures
            final(self).tokens == old(self).tokens,
            parsed(p_primary(old(self).toks(), old(self).pos as int), r, final(self).pos as int),
            r is Ok ==> old(self).pos <= final(self).pos <= final(self).tokens@.len(),
        decreases old(self).tokens@.len() - old(self).pos, 3int,
    {
        let ghost t = self.toks();
        let ghost start = self.pos as int;
        match self.advance() {
            Some(k) => {
                assert(tok_model(*k) == t[start]);
                match k {
                    Token::Number(n) => Ok(ExprNode::Literal(n.clone())),
                    Token::Ident(name) => self.parse_after_name(name.clone()),
                    Token::LParen => self.parse_paren(),
                    _ => {
                        let m = unexpected_message(Some(k));
                        assert(!(t[start] is Number) && !(t[start] is Ident) && !(t[start] is LParen));
                        assert(p_primary(t, start) == Err::<(ExprModel, int), Seq<char>>(
                            unexpected_text(Some(t[start])),
                        ));
                        Err(DriverError::ParseError(m))
                    },
                }
            },
            None => {
                let m = unexpected_message(None);
                Err(DriverError::ParseError(m))
            },
        }
    }

    /// After a name: a call's arguments in parentheses, or a variable.
    fn parse_after_name(&mut self, name: String) -> (r: Result<ExprNode, DriverError>)
        requires
            old(self).pos <= old(self).tokens@.len(),
        ensures
            final(self).tokens == old(self).tokens,
            parsed(p_after_name(old(self).toks(), old(self).pos as int, name@), r, final(self).pos as int),
            r is Ok ==> old(self).pos <= final(self).pos <= final(self).tokens@.len(),
        decreases old(self).tokens@.len() - old(self).pos, 22int,
    {
        if self.peek_is(&Token::LParen) {
            // Function call.
            self.advance();
            let args = self.parse_args()?;
            self.expect(&Token::RParen)?;
            let ghost am = nodes_model(args@);
            let r = ExprNode::FunctionCall { name, args };
            assert(r.model()->FunctionCall_args =~= am);
            Ok(r)
        } else {
            Ok(ExprNode::Variable(name))
        }
    }

    /// The inside of parentheses and the closing parenthesis.
    fn parse_paren(&mut self) -> (r: Result<ExprNode, DriverError>)
        requires
            old(self).pos <= old(self).tokens@.len(),
        ensures
            final(self).tokens == old(self).tokens,
            parsed(p_paren(old(self).toks(), old(self).pos as int), r, final(self).pos as int),
            r is Ok ==> old(self).pos <= final(self).pos <= final(self).tokens@.len(),
        decreases old(self).tokens@.len() - old(self).pos, 23int,
    {
        let expr = self.parse_ternary()?;
        self.expect(&Token::RParen)?;
        Ok(expr)
    }

    /// A call's arguments, up to (not including) the closing parenthesis.
    fn parse_args(&mut self) -> (r: Result<Vec<ExprNode>, DriverError>)
        requires
            old(self).pos <= old(self).tokens@.len(),
        ensures
            final(self).tokens == old(self).tokens,
            match p_args(old(self).toks(), old(self).pos as int) {
                Ok((args, p)) => r matches Ok(v) && nodes_model(v@) == args && final(self).pos == p,
                Err(m) => r matches Err(DriverError::ParseError(s)) && s@ == m,
            },
            r is Ok ==> old(self).pos <= final(self).pos <= final(self).tokens@.len(),
        decreases old(self).tokens@.len() - old(self).pos, 21int,
    {
        let ghost t = self.toks();
        let mut args: Vec<ExprNode> = Vec::new();
        if self.peek_is(&Token::RParen) {
            assert(nodes_model(args@) =~= Seq::<ExprModel>::empty());
            return Ok(args);
        }
        let first = self.parse_ternary()?;
        let ghost first_model = first.model();
        args.push(first);
        assert(nodes_model(args@) =~= seq![first_model]);
        loop
            invariant
                self.tokens == old(self).tokens,
                self.toks() == t,
                t == old(self).toks(),
                self.pos <= self.tokens@.len(),
                p_args(t, old(self).pos as int) == p_args_rest(t, nodes_model(args@), self.pos as int),
                old(self).pos <= self.pos,
            decreases self.tokens@.len() - self.pos,
        {
            if !self.peek_is(&Token::Comma) {
                return Ok(args);
            }
            let ghost before = nodes_model(args@);
            self.advance();
            let a = self.parse_ternary()?;
            args.push(a);
            assert(nodes_model(args@) =~= before.push(a.model()));
        }
    }
}

/// Parses an expression text into an [`Expression`]: its tokens must form
/// one expression with nothing left over.
pub fn parse_expression(source: &str) -> (r: Result<Expression, DriverError>)
    ensures
        match parse_text(source@) {
            Ok(e) => r matches Ok(x) && x.root.model() == e && x.source@ == source@,
            Err(m) => r matches Err(DriverError::ParseError(s)) && s@ == m,
        },
{
    let tokens = tokenize(source)?;
    let mut parser = Parser::new(tokens.as_slice());
    let root = parser.parse_ternary()?;
    if parser.pos < parser.tokens.len() {
        let mut msg = String::from_str("unexpected token at position ");
        push_decimal(&mut msg, parser.pos);
        return Err(DriverError::ParseError(msg));
    }
    Ok(Expression { root, source: source.to_owned() })
}

} // verus!
