//! Tokens of the scripting language as produced by a tokenizer.
use vstd::prelude::*;
use vstd::string::*;

verus! {

/// Keywords of the scripting language.
#[derive(Clone, Copy, Debug, PartialEq, Eq, Structural)]
pub enum Keyword {
    For,
    ForEach,
    If,
    Else,
    While,
    Repeat,
    Until,
    LocalVar,
    GlobalVar,
    Null,
    Return,
    Include,
    Exit,
}

/// How a string literal was quoted.
#[derive(Clone, Copy, Debug, PartialEq, Eq, Structural)]
pub enum StringCategory {
    /// Double quoted: escape sequences are kept as written.
    Unquoteable,
    /// Single quoted: escape sequences are interpreted.
    Quoteable,
}

/// The base a number literal was written in.
#[derive(Clone, Copy, Debug, PartialEq, Eq, Structural)]
pub enum Base {
    Binary,
    Octal,
    Base10,
    Hex,
}

/// The kind of a token.
#[derive(Clone, Copy, Debug, PartialEq, Eq, Structural)]
pub enum Category {
    LeftParen,
    RightParen,
    LeftBrace,
    RightBrace,
    LeftCurlyBracket,
    RightCurlyBracket,
    Comma,
    Dot,
    Percent,
    PercentEqual,
    Semicolon,
    DoublePoint,
    Tilde,
    Caret,
    Ampersand,
    AmpersandAmpersand,
    Pipe,
    PipePipe,
    Bang,
    BangEqual,
    BangTilde,
    Equal,
    EqualEqual,
    EqualTilde,
    Greater,
    GreaterGreater,
    GreaterEqual,
    GreaterLess,
    GreaterGreaterEqual,
    GreaterGreaterGreater,
    GreaterGreaterGreaterEqual,
    GreaterBangLess,
    Less,
    LessLess,
    LessEqual,
    LessLessEqual,
    Minus,
    MinusMinus,
    MinusEqual,
    Plus,
    PlusEqual,
    PlusPlus,
    Slash,
    SlashEqual,
    Star,
    StarStar,
    StarEqual,
    String(StringCategory),
    UnclosedString(StringCategory),
    Number(Base),
    IllegalNumber(Base),
    IPv4Address,
    IllegalIPv4Address,
    Comment,
    Identifier(Option<Keyword>),
    UnknownBase,
    UnknownSymbol,
}

/// A token: its category and the byte range `(start, end)` it covers in the source.
#[derive(Clone, Copy, Debug, PartialEq, Eq)]
pub struct Token {
    pub category: Category,
    pub position: (usize, usize),
}

impl Token {
    /// The category of this token.
    pub fn category(&self) -> (r: Category)
        ensures
            r == self.category,
    {
        self.category
    }

    /// The byte range this token covers.
    pub fn range(&self) -> (r: std::ops::Range<usize>)
        ensures
            r.start == self.position.0,
            r.end == self.position.1,
    {
        std::ops::Range { start: self.position.0, end: self.position.1 }
    }
}


/// The `Debug` text of a Keyword.
pub open spec fn keyword_text(k: Keyword) -> Seq<char> {
    match k {
        Keyword::For => "For"@,
        Keyword::ForEach => "ForEach"@,
        Keyword::If => "If"@,
        Keyword::Else => "Else"@,
        Keyword::While => "While"@,
        Keyword::Repeat => "Repeat"@,
        Keyword::Until => "Until"@,
        Keyword::LocalVar => "LocalVar"@,
        Keyword::GlobalVar => "GlobalVar"@,
        Keyword::Null => "Null"@,
        Keyword::Return => "Return"@,
        Keyword::Include => "Include"@,
        Keyword::Exit => "Exit"@,
    }
}

impl Keyword {
    /// The `Debug` text of this value.
    pub fn text(&self) -> (r: &'static str)
        ensures
            r@ == keyword_text(*self),
    {
        match self {
            Keyword::For => "For",
            Keyword::ForEach => "ForEach",
            Keyword::If => "If",
            Keyword::Else => "Else",
            Keyword::While => "While",
            Keyword::Repeat => "Repeat",
            Keyword::Until => "Until",
            Keyword::LocalVar => "LocalVar",
            Keyword::GlobalVar => "GlobalVar",
            Keyword::Null => "Null",
            Keyword::Return => "Return",
            Keyword::Include => "Include",
            Keyword::Exit => "Exit",
        }
    }
}

/// The `Debug` text of a StringCategory.
pub open spec fn string_category_text(k: StringCategory) -> Seq<char> {
    match k {
        StringCategory::Unquoteable => "Unquoteable"@,
        StringCategory::Quoteable => "Quoteable"@,
    }
}

impl StringCategory {
    /// The `Debug` text of this value.
    pub fn text(&self) -> (r: &'static str)
        ensures
            r@ == string_category_text(*self),
    {
        match self {
            StringCategory::Unquoteable => "Unquoteable",
            StringCategory::Quoteable => "Quoteable",
        }
    }
}

/// The `Debug` text of a Base.
pub open spec fn base_text(k: Base) -> Seq<char> {
    match k {
        Base::Binary => "Binary"@,
        Base::Octal => "Octal"@,
        Base::Base10 => "Base10"@,
        Base::Hex => "Hex"@,
    }
}

impl Base {
    /// The `Debug` text of this value.
    pub fn text(&self) -> (r: &'static str)
        ensures
            r@ == base_text(*self),
    {
        match self {
            Base::Binary => "Binary",
            Base::Octal => "Octal",
            Base::Base10 => "Base10",
            Base::Hex => "Hex",
        }
    }
}

/// The `Debug` text of an optional keyword.
pub open spec fn option_keyword_text(k: Option<Keyword>) -> Seq<char> {
    match k {
        None => "None"@,
        Some(k) => "Some"@ + "("@ + keyword_text(k) + ")"@,
    }
}

/// The `Debug` text of a category.
pub open spec fn category_text(c: Category) -> Seq<char> {
    match c {
        Category::LeftParen => "LeftParen"@,
        Category::RightParen => "RightParen"@,
        Category::LeftBrace => "LeftBrace"@,
        Category::RightBrace => "RightBrace"@,
        Category::LeftCurlyBracket => "LeftCurlyBracket"@,
        Category::RightCurlyBracket => "RightCurlyBracket"@,
        Category::Comma => "Comma"@,
        Category::Dot => "Dot"@,
        Category::Percent => "Percent"@,
        Category::PercentEqual => "PercentEqual"@,
        Category::Semicolon => "Semicolon"@,
        Category::DoublePoint => "DoublePoint"@,
        Category::Tilde => "Tilde"@,
        Category::Caret => "Caret"@,
        Category::Ampersand => "Ampersand"@,
        Category::AmpersandAmpersand => "AmpersandAmpersand"@,
        Category::Pipe => "Pipe"@,
        Category::PipePipe => "PipePipe"@,
        Category::Bang => "Bang"@,
        Category::BangEqual => "BangEqual"@,
        Category::BangTilde => "BangTilde"@,
        Category::Equal => "Equal"@,
        Category::EqualEqual => "EqualEqual"@,
        Category::EqualTilde => "EqualTilde"@,
        Category::Greater => "Greater"@,
        Category::GreaterGreater => "GreaterGreater"@,
        Category::GreaterEqual => "GreaterEqual"@,
        Category::GreaterLess => "GreaterLess"@,
        Category::GreaterGreaterEqual => "GreaterGreaterEqual"@,
        Category::GreaterGreaterGreater => "GreaterGreaterGreater"@,
        Category::GreaterGreaterGreaterEqual => "GreaterGreaterGreaterEqual"@,
        Category::GreaterBangLess => "GreaterBangLess"@,
        Category::Less => "Less"@,
        Category::LessLess => "LessLess"@,
        Category::LessEqual => "LessEqual"@,
        Category::LessLessEqual => "LessLessEqual"@,
        Category::Minus => "Minus"@,
        Category::MinusMinus => "MinusMinus"@,
        Category::MinusEqual => "MinusEqual"@,
        Category::Plus => "Plus"@,
        Category::PlusEqual => "PlusEqual"@,
        Category::PlusPlus => "PlusPlus"@,
        Category::Slash => "Slash"@,
        Category::SlashEqual => "SlashEqual"@,
        Category::Star => "Star"@,
        Category::StarStar => "StarStar"@,
        Category::StarEqual => "StarEqual"@,
        Category::String(k) => "String"@ + "("@ + string_category_text(k) + ")"@,
        Category::UnclosedString(k) => "UnclosedString"@ + "("@ + string_category_text(k) + ")"@,
        Category::Number(k) => "Number"@ + "("@ + base_text(k) + ")"@,
        Category::IllegalNumber(k) => "IllegalNumber"@ + "("@ + base_text(k) + ")"@,
        Category::IPv4Address => "IPv4Address"@,
        Category::IllegalIPv4Address => "IllegalIPv4Address"@,
        Category::Comment => "Comment"@,
        Category::Identifier(k) => "Identifier"@ + "("@ + option_keyword_text(k) + ")"@,
        Category::UnknownBase => "UnknownBase"@,
        Category::UnknownSymbol => "UnknownSymbol"@,
    }
}

/// The text of `prefix(inner)`.
fn wrapped(prefix: &str, inner: &str) -> (r: String)
    ensures
        r@ == prefix@ + "("@ + inner@ + ")"@,
{
    let mut s = String::from_str(prefix);
    s.append("(");
    s.append(inner);
    s.append(")");
    s
}

impl Category {
    /// The `Debug` text of this category.
    pub fn text(&self) -> (r: String)
        ensures
            r@ == category_text(*self),
    {
        match self {
            Category::LeftParen => String::from_str("LeftParen"),
            Category::RightParen => String::from_str("RightParen"),
            Category::LeftBrace => String::from_str("LeftBrace"),
            Category::RightBrace => String::from_str("RightBrace"),
            Category::LeftCurlyBracket => String::from_str("LeftCurlyBracket"),
            Category::RightCurlyBracket => String::from_str("RightCurlyBracket"),
            Category::Comma => String::from_str("Comma"),
            Category::Dot => String::from_str("Dot"),
            Category::Percent => String::from_str("Percent"),
            Category::PercentEqual => String::from_str("PercentEqual"),
            Category::Semicolon => String::from_str("Semicolon"),
            Category::DoublePoint => String::from_str("DoublePoint"),
            Category::Tilde => String::from_str("Tilde"),
            Category::Caret => String::from_str("Caret"),
            Category::Ampersand => String::from_str("Ampersand"),
            Category::AmpersandAmpersand => String::from_str("AmpersandAmpersand"),
            Category::Pipe => String::from_str("Pipe"),
            Category::PipePipe => String::from_str("PipePipe"),
            Category::Bang => String::from_str("Bang"),
            Category::BangEqual => String::from_str("BangEqual"),
            Category::BangTilde => String::from_str("BangTilde"),
            Category::Equal => String::from_str("Equal"),
            Category::EqualEqual => String::from_str("EqualEqual"),
            Category::EqualTilde => String::from_str("EqualTilde"),
            Category::Greater => String::from_str("Greater"),
            Category::GreaterGreater => String::from_str("GreaterGreater"),
            Category::GreaterEqual => String::from_str("GreaterEqual"),
            Category::GreaterLess => String::from_str("GreaterLess"),
            Category::GreaterGreaterEqual => String::from_str("GreaterGreaterEqual"),
            Category::GreaterGreaterGreater => String::from_str("GreaterGreaterGreater"),
            Category::GreaterGreaterGreaterEqual => String::from_str("GreaterGreaterGreaterEqual"),
            Category::GreaterBangLess => String::from_str("GreaterBangLess"),
            Category::Less => String::from_str("Less"),
            Category::LessLess => String::from_str("LessLess"),
            Category::LessEqual => String::from_str("LessEqual"),
            Category::LessLessEqual => String::from_str("LessLessEqual"),
            Category::Minus => String::from_str("Minus"),
            Category::MinusMinus => String::from_str("MinusMinus"),
            Category::MinusEqual => String::from_str("MinusEqual"),
            Category::Plus => String::from_str("Plus"),
            Category::PlusEqual => String::from_str("PlusEqual"),
            Category::PlusPlus => String::from_str("PlusPlus"),
            Category::Slash => String::from_str("Slash"),
            Category::SlashEqual => String::from_str("SlashEqual"),
            Category::Star => String::from_str("Star"),
            Category::StarStar => String::from_str("StarStar"),
            Category::StarEqual => String::from_str("StarEqual"),
            Category::String(k) => wrapped("String", k.text()),
            Category::UnclosedString(k) => wrapped("UnclosedString", k.text()),
            Category::Number(k) => wrapped("Number", k.text()),
            Category::IllegalNumber(k) => wrapped("IllegalNumber", k.text()),
            Category::IPv4Address => String::from_str("IPv4Address"),
            Category::IllegalIPv4Address => String::from_str("IllegalIPv4Address"),
            Category::Comment => String::from_str("Comment"),
            Category::Identifier(k) => match k {
                None => wrapped("Identifier", "None"),
                Some(k) => {
                    let inner = wrapped("Some", k.text());
                    wrapped("Identifier", inner.as_str())
                },
            },
            Category::UnknownBase => String::from_str("UnknownBase"),
            Category::UnknownSymbol => String::from_str("UnknownSymbol"),
        }
    }
}

} // verus!
