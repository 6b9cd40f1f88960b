//! Statements of the scripting language and the errors its parser reports.
use vstd::prelude::*;
use vstd::string::*;
use std::ops::Range;
use crate::token::{category_text, Category, Token};

verus! {

/// A parsed statement.
#[derive(Debug, PartialEq, Eq)]
pub enum Statement {
    RawNumber(u8),
    Primitive(Token),
    Variable(Token),
    Call(Token, Box<Statement>),
    Parameter(Vec<Statement>),
    /// A statement expanded into two, as `i++` into its value and an assignment.
    Expanded(Box<Statement>, Box<Statement>),
    Assign(Token, Box<Statement>),
    /// An assignment whose value is the assigned one, as `++i`.
    AssignReturn(Token, Box<Statement>),
    Operator(Category, Vec<Statement>),
    If(Box<Statement>, Box<Statement>, Option<Box<Statement>>),
    Block(Vec<Statement>),
}

/// A variable: its name and the token it was read from.
#[derive(Clone, Debug, PartialEq, Eq)]
pub struct Variable<'a> {
    pub name: &'a str,
    pub token: &'a Token,
}

/// The functions known in a block.
#[derive(Clone, Debug, PartialEq, Eq)]
pub struct Functions {}

/// An error found while parsing: a description, the token it concerns, and
/// the byte range it covers when that differs from the token's.
#[derive(Clone, Debug, PartialEq, Eq)]
pub struct TokenError {
    pub reason: String,
    pub token: Option<Token>,
    pub position: Option<Range<usize>>,
}

/// `prefix` followed by the `Debug` text of the category of `token`.
fn describe(prefix: &str, token: Token) -> (r: String)
    ensures
        r@ == prefix@ + category_text(token.category),
{
    let text = token.category().text();
    let mut reason = String::from_str(prefix);
    reason.append(text.as_str());
    reason
}

/// The position of an optional token, `(0, 0)` without one.
pub open spec fn token_position(t: Option<Token>) -> (usize, usize) {
    match t {
        Some(t) => t.position,
        None => (0, 0),
    }
}

impl TokenError {
    /// `token` was not expected where it stands.
    pub fn unexpected_token(token: Token) -> (r: TokenError)
        ensures
            r.reason@ == "Unexpected Token "@ + category_text(token.category),
            r.token == Some(token),
            r.position is None,
    {
        TokenError {
            reason: describe("Unexpected Token ", token),
            token: Some(token),
            position: None,
        }
    }

    /// The input ended while `origin` was going on.
    pub fn unexpected_end(origin: &str) -> (r: TokenError)
        ensures
            r.reason@ == "Unexpected end while "@ + origin@,
            r.token is None,
            r.position is None,
    {
        let mut reason = String::from_str("Unexpected end while ");
        reason.append(origin);
        TokenError { reason, token: None, position: None }
    }

    /// `token` opens something that is never closed.
    pub fn unclosed(token: Token) -> (r: TokenError)
        ensures
            r.reason@ == "Unclosed "@ + category_text(token.category),
            r.token == Some(token),
            r.position is None,
    {
        TokenError { reason: describe("Unclosed ", token), token: Some(token), position: None }
    }

    /// The statement that starts at `token` lacks its semicolon; it runs to
    /// the end of `end` when given, else over `token` alone.
    pub fn missing_semicolon(token: Token, end: Option<Token>) -> (r: TokenError)
        ensures
            r.reason@ == "Missing semicolon "@ + category_text(token.category),
            r.token == Some(token),
            r.position matches Some(p) && p.start == token.position.0 && p.end == match end {
                Some(e) => e.position.1,
                None => token.position.1,
            },
    {
        let position = match end {
            Some(et) => Range { start: token.position.0, end: et.position.1 },
            None => token.range(),
        };
        TokenError {
            reason: describe("Missing semicolon ", token),
            token: Some(token),
            position: Some(position),
        }
    }

    /// The position of the token concerned, or `(0, 0)` without one.
    pub fn position(&self) -> (r: (usize, usize))
        ensures
            r == token_position(self.token),
    {
        match self.token {
            Some(t) => t.position,
            None => (0, 0),
        }
    }

    /// The description of the error.
    pub fn reason(&self) -> (r: &str)
        ensures
            r@ == self.reason@,
    {
        self.reason.as_str()
    }

    /// The byte range the error covers: its own when set, else that of its
    /// token, else `0..0`.
    pub fn range(&self) -> (r: Range<usize>)
        ensures
            self.position matches Some(p) ==> r.start == p.start && r.end == p.end,
            self.position is None ==> (r.start, r.end) == token_position(self.token),
    {
        match &self.position {
            Some(x) => Range { start: x.start, end: x.end },
            None => {
                let (start, end) = self.position();
                Range { start, end }
            },
        }
    }
}

} // verus!
