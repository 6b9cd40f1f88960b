use scanner_core::operation::Operation;
use scanner_core::parser::{Statement, TokenError};
use scanner_core::token::{Base, Category, Keyword, StringCategory, Token};

fn token(category: Category, start: usize, end: usize) -> Token {
    Token { category, position: (start, end) }
}

#[test]
fn unexpected_token_error() {
    let e = TokenError::unexpected_token(token(Category::Identifier(Some(Keyword::For)), 3, 6));
    assert_eq!(e.reason(), "Unexpected Token Identifier(Some(For))");
    assert_eq!(e.range(), 3..6);
}

#[test]
fn unexpected_end_error() {
    let e = TokenError::unexpected_end("parsing");
    assert_eq!(e.reason(), "Unexpected end while parsing");
    assert_eq!(e.range(), 0..0);
}

#[test]
fn unclosed_error() {
    let e = TokenError::unclosed(token(Category::LeftParen, 4, 5));
    assert_eq!(e.reason(), "Unclosed LeftParen");
    assert_eq!(e.range(), 4..5);
}

#[test]
fn missing_semicolon_spans_to_last_token() {
    let e = TokenError::missing_semicolon(
        token(Category::Identifier(None), 0, 3),
        Some(token(Category::Number(Base::Hex), 10, 14)),
    );
    assert_eq!(e.reason(), "Missing semicolon Identifier(None)");
    assert_eq!(e.range(), 0..14);
    assert_eq!(e.position(), (0, 3));
    let alone = TokenError::missing_semicolon(token(Category::String(StringCategory::Quoteable), 2, 9), None);
    assert_eq!(alone.reason(), "Missing semicolon String(Quoteable)");
    assert_eq!(alone.range(), 2..9);
}

#[test]
fn category_text_matches_debug() {
    for c in [
        Category::Plus,
        Category::GreaterGreaterGreaterEqual,
        Category::String(StringCategory::Unquoteable),
        Category::Number(Base::Base10),
        Category::Identifier(None),
        Category::Identifier(Some(Keyword::LocalVar)),
        Category::IllegalNumber(Base::Octal),
    ] {
        assert_eq!(c.text(), format!("{:?}", c));
    }
}

#[test]
fn operations_of_tokens() {
    let op = |c| Operation::new(token(c, 0, 1));
    assert_eq!(op(Category::Plus), Some(Operation::Operator(Category::Plus)));
    assert_eq!(op(Category::PlusPlus), Some(Operation::Assign(Category::PlusPlus)));
    assert_eq!(op(Category::Semicolon), Some(Operation::Assign(Category::Semicolon)));
    assert_eq!(op(Category::Number(Base::Binary)), Some(Operation::Primitive));
    assert_eq!(op(Category::Comma), Some(Operation::Grouping(Category::Comma)));
    assert_eq!(op(Category::Identifier(None)), Some(Operation::Variable));
    assert_eq!(op(Category::Identifier(Some(Keyword::If))), Some(Operation::Keyword(Keyword::If)));
    assert_eq!(op(Category::Comment), Some(Operation::NoOp));
    assert_eq!(op(Category::RightParen), None);
}

#[test]
fn if_statement_value() {
    let s = Statement::If(
        Box::new(Statement::Variable(token(Category::Identifier(None), 4, 15))),
        Box::new(Statement::Call(
            token(Category::Identifier(None), 17, 27),
            Box::new(Statement::Primitive(token(Category::String(StringCategory::Unquoteable), 29, 57))),
        )),
        None,
    );
    assert_ne!(s, Statement::Block(vec![]));
}
