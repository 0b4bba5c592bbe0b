use vstd::prelude::*;
use vstd::string::StringExecFns;

verus! {

/// A lexical unit of the language. Identifiers, integer literals and string
/// literals keep their text; every other token is an atom.
#[derive(Debug, PartialEq)]
pub enum Token {
    // Identifiers and literals
    Ident(String),
    Int(String),
    Str(String),
    // Operators
    Assign,
    Plus,
    Minus,
    Bang,
    Asterisk,
    ForwardSlash,
    LessThan,
    GreaterThan,
    Equal,
    NotEqual,
    // Delimiters
    Comma,
    Semicolon,
    Colon,
    LParen,
    RParen,
    LBrace,
    RBrace,
    LSquare,
    RSquare,
    // Keywords
    Function,
    Let,
    True,
    False,
    If,
    Else,
    Return,
    HashMacro,
}

/// The mathematical value of a [`Token`]: the same variants, with texts as
/// sequences of characters.
pub enum TokenView {
    Ident(Seq<char>),
    Int(Seq<char>),
    Str(Seq<char>),
    Assign,
    Plus,
    Minus,
    Bang,
    Asterisk,
    ForwardSlash,
    LessThan,
    GreaterThan,
    Equal,
    NotEqual,
    Comma,
    Semicolon,
    Colon,
    LParen,
    RParen,
    LBrace,
    RBrace,
    LSquare,
    RSquare,
    Function,
    Let,
    True,
    False,
    If,
    Else,
    Return,
    HashMacro,
}

impl View for Token {
    type V = TokenView;

    open spec fn view(&self) -> TokenView {
        match self {
            Token::Ident(s) => TokenView::Ident(s@),
            Token::Int(s) => TokenView::Int(s@),
            Token::Str(s) => TokenView::Str(s@),
            Token::Assign => TokenView::Assign,
            Token::Plus => TokenView::Plus,
            Token::Minus => TokenView::Minus,
            Token::Bang => TokenView::Bang,
            Token::Asterisk => TokenView::Asterisk,
            Token::ForwardSlash => TokenView::ForwardSlash,
            Token::LessThan => TokenView::LessThan,
            Token::GreaterThan => TokenView::GreaterThan,
            Token::Equal => TokenView::Equal,
            Token::NotEqual => TokenView::NotEqual,
            Token::Comma => TokenView::Comma,
            Token::Semicolon => TokenView::Semicolon,
            Token::Colon => TokenView::Colon,
            Token::LParen => TokenView::LParen,
            Token::RParen => TokenView::RParen,
            Token::LBrace => TokenView::LBrace,
            Token::RBrace => TokenView::RBrace,
            Token::LSquare => TokenView::LSquare,
            Token::RSquare => TokenView::RSquare,
            Token::Function => TokenView::Function,
            Token::Let => TokenView::Let,
            Token::True => TokenView::True,
            Token::False => TokenView::False,
            Token::If => TokenView::If,
            Token::Else => TokenView::Else,
            Token::Return => TokenView::Return,
            Token::HashMacro => TokenView::HashMacro,
        }
    }
}

impl Clone for Token {
    fn clone(&self) -> (r: Self)
        ensures
            r@ == self@,
    {
        match self {
            Token::Ident(s) => Token::Ident(s.clone()),
            Token::Int(s) => Token::Int(s.clone()),
            Token::Str(s) => Token::Str(s.clone()),
            Token::Assign => Token::Assign,
            Token::Plus => Token::Plus,
            Token::Minus => Token::Minus,
            Token::Bang => Token::Bang,
            Token::Asterisk => Token::Asterisk,
            Token::ForwardSlash => Token::ForwardSlash,
            Token::LessThan => Token::LessThan,
            Token::GreaterThan => Token::GreaterThan,
            Token::Equal => Token::Equal,
            Token::NotEqual => Token::NotEqual,
            Token::Comma => Token::Comma,
            Token::Semicolon => Token::Semicolon,
            Token::Colon => Token::Colon,
            Token::LParen => Token::LParen,
            Token::RParen => Token::RParen,
            Token::LBrace => Token::LBrace,
            Token::RBrace => Token::RBrace,
            Token::LSquare => Token::LSquare,
            Token::RSquare => Token::RSquare,
            Token::Function => Token::Function,
            Token::Let => Token::Let,
            Token::True => Token::True,
            Token::False => Token::False,
            Token::If => Token::If,
            Token::Else => Token::Else,
            Token::Return => Token::Return,
            Token::HashMacro => Token::HashMacro,
        }
    }
}

impl Token {
    /// Whether two tokens are the same variant with the same text.
    pub fn same(&self, other: &Token) -> (r: bool)
        ensures
            r == (self@ == other@),
    {
        match (self, other) {
            (Token::Ident(a), Token::Ident(b)) => *a == *b,
            (Token::Int(a), Token::Int(b)) => *a == *b,
            (Token::Str(a), Token::Str(b)) => *a == *b,
            (Token::Assign, Token::Assign) => true,
            (Token::Plus, Token::Plus) => true,
            (Token::Minus, Token::Minus) => true,
            (Token::Bang, Token::Bang) => true,
            (Token::Asterisk, Token::Asterisk) => true,
            (Token::ForwardSlash, Token::ForwardSlash) => true,
            (Token::LessThan, Token::LessThan) => true,
            (Token::GreaterThan, Token::GreaterThan) => true,
            (Token::Equal, Token::Equal) => true,
            (Token::NotEqual, Token::NotEqual) => true,
            (Token::Comma, Token::Comma) => true,
            (Token::Semicolon, Token::Semicolon) => true,
            (Token::Colon, Token::Colon) => true,
            (Token::LParen, Token::LParen) => true,
            (Token::RParen, Token::RParen) => true,
            (Token::LBrace, Token::LBrace) => true,
            (Token::RBrace, Token::RBrace) => true,
            (Token::LSquare, Token::LSquare) => true,
            (Token::RSquare, Token::RSquare) => true,
            (Token::Function, Token::Function) => true,
            (Token::Let, Token::Let) => true,
            (Token::True, Token::True) => true,
            (Token::False, Token::False) => true,
            (Token::If, Token::If) => true,
            (Token::Else, Token::Else) => true,
            (Token::Return, Token::Return) => true,
            (Token::HashMacro, Token::HashMacro) => true,
            _ => false,
        }
    }
}

/// The text of a token as messages show it.
pub open spec fn display(t: TokenView) -> Seq<char> {
    match t {
        TokenView::Ident(s) => "Identifier("@ + s + ")"@,
        TokenView::Int(s) => "Int("@ + s + ")"@,
        TokenView::Str(s) => "Str("@ + s + ")"@,
        TokenView::Assign => "="@,
        TokenView::Asterisk => "*"@,
        TokenView::Bang => "!"@,
        TokenView::Colon => ":"@,
        TokenView::Comma => "),"@,
        TokenView::Else => "else"@,
        TokenView::Equal => "=="@,
        TokenView::False => "false"@,
        TokenView::ForwardSlash => "/"@,
        TokenView::Function => "fn"@,
        TokenView::GreaterThan => ">"@,
        TokenView::HashMacro => "macro!"@,
        TokenView::If => "if"@,
        TokenView::LBrace => "{"@,
        TokenView::LParen => "("@,
        TokenView::LSquare => "["@,
        TokenView::LessThan => "<"@,
        TokenView::Let => "let"@,
        TokenView::Minus => "-"@,
        TokenView::NotEqual => "!="@,
        TokenView::Plus => "+"@,
        TokenView::RBrace => "}"@,
        TokenView::RParen => ")"@,
        TokenView::RSquare => "]"@,
        TokenView::Return => "return"@,
        TokenView::Semicolon => ";"@,
        TokenView::True => "true"@,
    }
}

impl Token {
    /// The text of this token as messages show it.
    pub fn to_string(&self) -> (s: String)
        ensures
            s@ == display(self@),
    {
        match self {
            Token::Ident(text) => {
                let mut s = "Identifier(".to_owned();
                s.append(text.as_str());
                s.append(")");
                assert(s@ =~= display(self@));
                s
            },
            Token::Int(text) => {
                let mut s = "Int(".to_owned();
                s.append(text.as_str());
                s.append(")");
                assert(s@ =~= display(self@));
                s
            },
            Token::Str(text) => {
                let mut s = "Str(".to_owned();
                s.append(text.as_str());
                s.append(")");
                assert(s@ =~= display(self@));
                s
            },
            Token::Assign => "=".to_owned(),
            Token::Asterisk => "*".to_owned(),
            Token::Bang => "!".to_owned(),
            Token::Colon => ":".to_owned(),
            Token::Comma => "),".to_owned(),
            Token::Else => "else".to_owned(),
            Token::Equal => "==".to_owned(),
            Token::False => "false".to_owned(),
            Token::ForwardSlash => "/".to_owned(),
            Token::Function => "fn".to_owned(),
            Token::GreaterThan => ">".to_owned(),
            Token::HashMacro => "macro!".to_owned(),
            Token::If => "if".to_owned(),
            Token::LBrace => "{".to_owned(),
            Token::LParen => "(".to_owned(),
            Token::LSquare => "[".to_owned(),
            Token::LessThan => "<".to_owned(),
            Token::Let => "let".to_owned(),
            Token::Minus => "-".to_owned(),
            Token::NotEqual => "!=".to_owned(),
            Token::Plus => "+".to_owned(),
            Token::RBrace => "}".to_owned(),
            Token::RParen => ")".to_owned(),
            Token::RSquare => "]".to_owned(),
            Token::Return => "return".to_owned(),
            Token::Semicolon => ";".to_owned(),
            Token::True => "true".to_owned(),
        }
    }
}

} // verus!
