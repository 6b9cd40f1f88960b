//! How the parser treats each kind of token.
use vstd::prelude::*;
use crate::token::{Category, Keyword, Token};

verus! {

/// The role of a token in an expression.
#[derive(Clone, Copy, Debug, PartialEq, Eq, Structural)]
pub enum Operation {
    /// An operator, mostly infix.
    Operator(Category),
    /// An assignment, kept apart from the operators to ease postfix handling.
    Assign(Category),
    /// A grouping, handled in prefix and maybe postfix position.
    Grouping(Category),
    /// A variable, handled in prefix position.
    Variable,
    /// A literal value, handled in prefix position.
    Primitive,
    /// A keyword, handled in prefix position.
    Keyword(Keyword),
    /// An empty statement.
    NoOp,
}

/// Categories that are operators.
pub open spec fn is_operator(c: Category) -> bool {
    c is Plus || c is Star || c is Slash || c is Minus || c is Percent || c is LessLess
        || c is GreaterGreater || c is GreaterGreaterGreater || c is Tilde || c is Ampersand
        || c is Pipe || c is Caret || c is Bang || c is EqualTilde || c is BangTilde
        || c is GreaterLess || c is GreaterBangLess || c is AmpersandAmpersand || c is PipePipe
        || c is EqualEqual || c is BangEqual || c is Greater || c is Less || c is GreaterEqual
        || c is LessEqual || c is StarStar
}

/// Categories that assign, or end or separate an assignment.
pub open spec fn is_assign(c: Category) -> bool {
    c is Equal || c is MinusEqual || c is PlusEqual || c is SlashEqual || c is StarEqual
        || c is GreaterGreaterEqual || c is LessLessEqual || c is GreaterGreaterGreaterEqual
        || c is PlusPlus || c is Semicolon || c is DoublePoint || c is PercentEqual
        || c is MinusMinus
}

/// Categories of literal values.
pub open spec fn is_primitive(c: Category) -> bool {
    c is String || c is Number || c is IPv4Address
}

/// Categories that open or separate a group.
pub open spec fn is_grouping(c: Category) -> bool {
    c is LeftParen || c is LeftBrace || c is LeftCurlyBracket || c is Comma
}

/// The operation of a token of category `c`, if it has one.
pub open spec fn operation_of(c: Category) -> Option<Operation> {
    if is_operator(c) {
        Some(Operation::Operator(c))
    } else if is_assign(c) {
        Some(Operation::Assign(c))
    } else if is_primitive(c) {
        Some(Operation::Primitive)
    } else if is_grouping(c) {
        Some(Operation::Grouping(c))
    } else {
        match c {
            Category::Identifier(None) => Some(Operation::Variable),
            Category::Identifier(Some(k)) => Some(Operation::Keyword(k)),
            Category::Comment => Some(Operation::NoOp),
            _ => None,
        }
    }
}

impl Operation {
    /// The operation of `token`; `None` when its category has none.
    pub fn new(token: Token) -> (r: Option<Operation>)
        ensures
            r == operation_of(token.category),
    {
        match token.category() {
            Category::Plus
            | Category::Star
            | Category::Slash
            | Category::Minus
            | Category::Percent
            | Category::LessLess
            | Category::GreaterGreater
            | Category::GreaterGreaterGreater
            | Category::Tilde
            | Category::Ampersand
            | Category::Pipe
            | Category::Caret
            | Category::Bang
            | Category::EqualTilde
            | Category::BangTilde
            | Category::GreaterLess
            | Category::GreaterBangLess
            | Category::AmpersandAmpersand
            | Category::PipePipe
            | Category::EqualEqual
            | Category::BangEqual
            | Category::Greater
            | Category::Less
            | Category::GreaterEqual
            | Category::LessEqual
            | Category::StarStar => Some(Operation::Operator(token.category())),
            Category::Equal
            | Category::MinusEqual
            | Category::PlusEqual
            | Category::SlashEqual
            | Category::StarEqual
            | Category::GreaterGreaterEqual
            | Category::LessLessEqual
            | Category::GreaterGreaterGreaterEqual
            | Category::PlusPlus
            | Category::Semicolon
            | Category::DoublePoint
            | Category::PercentEqual
            | Category::MinusMinus => Some(Operation::Assign(token.category())),
            Category::String(_) | Category::Number(_) | Category::IPv4Address => Some(
                Operation::Primitive,
            ),
            Category::LeftParen
            | Category::LeftBrace
            | Category::LeftCurlyBracket
            | Category::Comma => Some(Operation::Grouping(token.category())),
            Category::Identifier(None) => Some(Operation::Variable),
            Category::Identifier(Some(keyword)) => Some(Operation::Keyword(keyword)),
            Category::Comment => Some(Operation::NoOp),
            _ => None,
        }
    }
}

} // verus!
