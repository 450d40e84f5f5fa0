//! Tokens: what the scanner makes of source text.

use vstd::prelude::*;
use vstd::string::StringExecFns;

verus! {

/// The closed set of token kinds. A kind is a plain tag; the text that a
/// literal token carries is stored beside it, in [`Token::literal`].
#[derive(Clone, Copy, Debug, PartialEq, Eq, Structural)]
pub enum TokenType {
    // Single-character punctuation.
    LeftParen,
    RightParen,
    LeftBrace,
    RightBrace,
    Comma,
    Dot,
    Minus,
    Plus,
    Semicolon,
    Slash,
    Star,
    // One or two character operators.
    Bang,
    BangEqual,
    Equal,
    EqualEqual,
    Greater,
    GreaterEqual,
    Less,
    LessEqual,
    // Literals.
    Identifier,
    String,
    Number,
    // Keywords.
    And,
    Class,
    Else,
    False,
    Fun,
    For,
    If,
    Nil,
    Or,
    Print,
    Return,
    Super,
    This,
    True,
    Var,
    While,
    // End of input.
    EOF,
}

/// A token: its kind, the text it carries and the line it was found on.
///
/// `literal` is the name of an identifier, the contents of a string (without
/// the quotes) or the digits of a number; it is empty for every other kind.
#[derive(Debug, PartialEq, Eq)]
pub struct Token {
    pub token_type: TokenType,
    pub literal: String,
    pub line: usize,
}

/// What a [`Token`] is, as a mathematical value.
pub struct TokenModel {
    pub token_type: TokenType,
    pub literal: Seq<char>,
    pub line: usize,
}

impl View for Token {
    type V = TokenModel;

    open spec fn view(&self) -> TokenModel {
        TokenModel { token_type: self.token_type, literal: self.literal@, line: self.line }
    }
}

impl Clone for Token {
    fn clone(&self) -> (copy: Token)
        ensures
            copy == *self,
    {
        Token { token_type: self.token_type, literal: self.literal.clone(), line: self.line }
    }
}

impl TokenModel {
    /// A token that carries no text.
    pub open spec fn plain(token_type: TokenType, line: usize) -> TokenModel {
        TokenModel { token_type, literal: Seq::empty(), line }
    }
}

impl Token {
    /// A token of kind `token_type` on `line` that carries no text.
    pub fn plain(token_type: TokenType, line: usize) -> (token: Token)
        ensures
            token@ == TokenModel::plain(token_type, line),
    {
        Token { token_type, literal: String::new(), line }
    }

    /// A token of kind `token_type` on `line` that carries `literal`.
    pub fn new(token_type: TokenType, literal: String, line: usize) -> (token: Token)
        ensures
            token@ == (TokenModel { token_type, literal: literal@, line }),
            token.literal == literal,
    {
        Token { token_type, literal, line }
    }
}

/// The models of a sequence of tokens.
pub open spec fn token_models(tokens: Seq<Token>) -> Seq<TokenModel> {
    tokens.map_values(|token: Token| token@)
}

/// The name of a token kind, as it is written in messages.
pub open spec fn kind_name(kind: TokenType) -> Seq<char> {
    match kind {
        TokenType::LeftParen => "LeftParen"@,
        TokenType::RightParen => "RightParen"@,
        TokenType::LeftBrace => "LeftBrace"@,
        TokenType::RightBrace => "RightBrace"@,
        TokenType::Comma => "Comma"@,
        TokenType::Dot => "Dot"@,
        TokenType::Minus => "Minus"@,
        TokenType::Plus => "Plus"@,
        TokenType::Semicolon => "Semicolon"@,
        TokenType::Slash => "Slash"@,
        TokenType::Star => "Star"@,
        TokenType::Bang => "Bang"@,
        TokenType::BangEqual => "BangEqual"@,
        TokenType::Equal => "Equal"@,
        TokenType::EqualEqual => "EqualEqual"@,
        TokenType::Greater => "Greater"@,
        TokenType::GreaterEqual => "GreaterEqual"@,
        TokenType::Less => "Less"@,
        TokenType::LessEqual => "LessEqual"@,
        TokenType::Identifier => "Identifier"@,
        TokenType::String => "String"@,
        TokenType::Number => "Number"@,
        TokenType::And => "And"@,
        TokenType::Class => "Class"@,
        TokenType::Else => "Else"@,
        TokenType::False => "False"@,
        TokenType::Fun => "Fun"@,
        TokenType::For => "For"@,
        TokenType::If => "If"@,
        TokenType::Nil => "Nil"@,
        TokenType::Or => "Or"@,
        TokenType::Print => "Print"@,
        TokenType::Return => "Return"@,
        TokenType::Super => "Super"@,
        TokenType::This => "This"@,
        TokenType::True => "True"@,
        TokenType::Var => "Var"@,
        TokenType::While => "While"@,
        TokenType::EOF => "EOF"@,
    }
}

impl TokenType {
    /// The name of the kind, as it is written in messages.
    pub fn name(&self) -> (name: &'static str)
        ensures
            name@ == kind_name(*self),
    {
        match self {
            TokenType::LeftParen => "LeftParen",
            TokenType::RightParen => "RightParen",
            TokenType::LeftBrace => "LeftBrace",
            TokenType::RightBrace => "RightBrace",
            TokenType::Comma => "Comma",
            TokenType::Dot => "Dot",
            TokenType::Minus => "Minus",
            TokenType::Plus => "Plus",
            TokenType::Semicolon => "Semicolon",
            TokenType::Slash => "Slash",
            TokenType::Star => "Star",
            TokenType::Bang => "Bang",
            TokenType::BangEqual => "BangEqual",
            TokenType::Equal => "Equal",
            TokenType::EqualEqual => "EqualEqual",
            TokenType::Greater => "Greater",
            TokenType::GreaterEqual => "GreaterEqual",
            TokenType::Less => "Less",
            TokenType::LessEqual => "LessEqual",
            TokenType::Identifier => "Identifier",
            TokenType::String => "String",
            TokenType::Number => "Number",
            TokenType::And => "And",
            TokenType::Class => "Class",
            TokenType::Else => "Else",
            TokenType::False => "False",
            TokenType::Fun => "Fun",
            TokenType::For => "For",
            TokenType::If => "If",
            TokenType::Nil => "Nil",
            TokenType::Or => "Or",
            TokenType::Print => "Print",
            TokenType::Return => "Return",
            TokenType::Super => "Super",
            TokenType::This => "This",
            TokenType::True => "True",
            TokenType::Var => "Var",
            TokenType::While => "While",
            TokenType::EOF => "EOF",
        }
    }
}

impl TokenModel {
    /// The token as it is written in messages: the name of its kind, and for
    /// a literal the text that it carries, in double quotes for an identifier
    /// or a string and in parentheses alone for a number.
    pub open spec fn description(self) -> Seq<char> {
        if self.token_type == TokenType::Identifier || self.token_type == TokenType::String {
            kind_name(self.token_type) + "(\""@ + self.literal + "\")"@
        } else if self.token_type == TokenType::Number {
            kind_name(self.token_type) + "("@ + self.literal + ")"@
        } else {
            kind_name(self.token_type)
        }
    }
}

impl Token {
    /// The token as it is written in messages.
    pub fn describe(&self) -> (text: String)
        ensures
            text@ == self@.description(),
    {
        let mut text = String::from_str(self.token_type.name());
        if self.token_type == TokenType::Identifier || self.token_type == TokenType::String {
            text.append("(\"");
            text.append(self.literal.as_str());
            text.append("\")");
        } else if self.token_type == TokenType::Number {
            text.append("(");
            text.append(self.literal.as_str());
            text.append(")");
        }
        text
    }
}

} // verus!
