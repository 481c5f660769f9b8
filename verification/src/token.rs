//! The tokens of the Venti language.
//!
//! A token is the smallest lexical unit of source text. Literal tokens carry
//! their textual payload: an identifier its spelling, a number literal its raw
//! digit text (conversion to a value is deferred to the parser), a string
//! literal the text between its two quotes. Keywords, operators and delimiters
//! carry nothing, since their spelling is fixed.

use vstd::prelude::*;

verus! {

/// One lexical unit of Venti source text.
#[derive(Debug, PartialEq)]
pub enum Token {
    /// The declaration keyword, spelled `venti`.
    Venti,
    /// A name: a letter or underscore followed by letters, digits and underscores.
    Identifier(String),
    /// A string literal; the payload is the text between the two quotes.
    StringLiteral(String),
    /// A number literal; the payload is the raw digit text.
    NumberLiteral(String),
    /// `true` or `false`.
    BooleanLiteral(bool),
    Plus,
    Minus,
    Star,
    Slash,
    LParen,
    RParen,
    LBrace,
    RBrace,
    LBracket,
    RBracket,
    Comma,
    Semicolon,
    Equals,
    /// Reserved keyword `if_venti`: recognized lexically, no grammar production yet.
    If,
    /// Reserved keyword `else_venti`.
    Else,
    /// Reserved keyword `for_venti`.
    For,
    /// Reserved keyword `while_venti`.
    While,
    /// The print keyword, spelled `printventi`.
    Print,
    Async,
    Await,
    /// Reserved type-name keyword `int`.
    Int,
    /// Reserved type-name keyword `float`.
    Float,
    /// Reserved type-name keyword `bool`.
    Bool,
}

/// The mathematical model of a `Token`: textual payloads are character sequences.
pub ghost enum SpecToken {
    Venti,
    Identifier(Seq<char>),
    StringLiteral(Seq<char>),
    NumberLiteral(Seq<char>),
    BooleanLiteral(bool),
    Plus,
    Minus,
    Star,
    Slash,
    LParen,
    RParen,
    LBrace,
    RBrace,
    LBracket,
    RBracket,
    Comma,
    Semicolon,
    Equals,
    If,
    Else,
    For,
    While,
    Print,
    Async,
    Await,
    Int,
    Float,
    Bool,
}

impl View for Token {
    type V = SpecToken;

    open spec fn view(&self) -> SpecToken {
        match self {
            Token::Venti => SpecToken::Venti,
            Token::Identifier(s) => SpecToken::Identifier(s@),
            Token::StringLiteral(s) => SpecToken::StringLiteral(s@),
            Token::NumberLiteral(s) => SpecToken::NumberLiteral(s@),
            Token::BooleanLiteral(b) => SpecToken::BooleanLiteral(*b),
            Token::Plus => SpecToken::Plus,
            Token::Minus => SpecToken::Minus,
            Token::Star => SpecToken::Star,
            Token::Slash => SpecToken::Slash,
            Token::LParen => SpecToken::LParen,
            Token::RParen => SpecToken::RParen,
            Token::LBrace => SpecToken::LBrace,
            Token::RBrace => SpecToken::RBrace,
            Token::LBracket => SpecToken::LBracket,
            Token::RBracket => SpecToken::RBracket,
            Token::Comma => SpecToken::Comma,
            Token::Semicolon => SpecToken::Semicolon,
            Token::Equals => SpecToken::Equals,
            Token::If => SpecToken::If,
            Token::Else => SpecToken::Else,
            Token::For => SpecToken::For,
            Token::While => SpecToken::While,
            Token::Print => SpecToken::Print,
            Token::Async => SpecToken::Async,
            Token::Await => SpecToken::Await,
            Token::Int => SpecToken::Int,
            Token::Float => SpecToken::Float,
            Token::Bool => SpecToken::Bool,
        }
    }
}

impl DeepView for Token {
    type V = SpecToken;

    open spec fn deep_view(&self) -> SpecToken {
        self.view()
    }
}

impl Token {
    /// The source text this token stands for, as `token_text` defines it.
    pub fn text(&self) -> (r: String)
        ensures
            r@ == token_text(self.deep_view()),
    {
        match self {
            Token::Venti => "venti".to_owned(),
            Token::Identifier(s) => s.clone(),
            Token::StringLiteral(s) => {
                proof {
                    reveal_strlit("\"");
                }
                let mut r = "\"".to_owned();
                r.append(s.as_str());
                r.append("\"");
                proof {
                    assert(r@ =~= seq!['"'] + s@ + seq!['"']);
                }
                r
            },
            Token::NumberLiteral(s) => s.clone(),
            Token::BooleanLiteral(b) => if *b {
                "true".to_owned()
            } else {
                "false".to_owned()
            },
            Token::Plus => "+".to_owned(),
            Token::Minus => "-".to_owned(),
            Token::Star => "*".to_owned(),
            Token::Slash => "/".to_owned(),
            Token::LParen => "(".to_owned(),
            Token::RParen => ")".to_owned(),
            Token::LBrace => "{".to_owned(),
            Token::RBrace => "}".to_owned(),
            Token::LBracket => "[".to_owned(),
            Token::RBracket => "]".to_owned(),
            Token::Comma => ",".to_owned(),
            Token::Semicolon => ";".to_owned(),
            Token::Equals => "=".to_owned(),
            Token::If => "if_venti".to_owned(),
            Token::Else => "else_venti".to_owned(),
            Token::For => "for_venti".to_owned(),
            Token::While => "while_venti".to_owned(),
            Token::Print => "printventi".to_owned(),
            Token::Async => "async".to_owned(),
            Token::Await => "await".to_owned(),
            Token::Int => "int".to_owned(),
            Token::Float => "float".to_owned(),
            Token::Bool => "bool".to_owned(),
        }
    }
}

/// The source text a token stands for: the exact span the lexer consumed to
/// produce it. A string literal's span includes its two quotes.
pub open spec fn token_text(t: SpecToken) -> Seq<char> {
    match t {
        SpecToken::Venti => "venti"@,
        SpecToken::Identifier(s) => s,
        SpecToken::StringLiteral(s) => seq!['"'] + s + seq!['"'],
        SpecToken::NumberLiteral(s) => s,
        SpecToken::BooleanLiteral(b) => if b {
            "true"@
        } else {
            "false"@
        },
        SpecToken::Plus => "+"@,
        SpecToken::Minus => "-"@,
        SpecToken::Star => "*"@,
        SpecToken::Slash => "/"@,
        SpecToken::LParen => "("@,
        SpecToken::RParen => ")"@,
        SpecToken::LBrace => "{"@,
        SpecToken::RBrace => "}"@,
        SpecToken::LBracket => "["@,
        SpecToken::RBracket => "]"@,
        SpecToken::Comma => ","@,
        SpecToken::Semicolon => ";"@,
        SpecToken::Equals => "="@,
        SpecToken::If => "if_venti"@,
        SpecToken::Else => "else_venti"@,
        SpecToken::For => "for_venti"@,
        SpecToken::While => "while_venti"@,
        SpecToken::Print => "printventi"@,
        SpecToken::Async => "async"@,
        SpecToken::Await => "await"@,
        SpecToken::Int => "int"@,
        SpecToken::Float => "float"@,
        SpecToken::Bool => "bool"@,
    }
}

} // verus!
