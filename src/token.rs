//! Tokens, positioned errors, and their mathematical views.
use vstd::prelude::*;

verus! {

/// The kind of a token; synonymous symbols share one kind.
pub enum TokenKind {
    LeftParen,
    RightParen,
    Identifier(String),
    And,
    Or,
    Not,
    Xor,
    EndOfInput,
}

/// A token kind with the identifier's name as a sequence of characters.
pub enum KindView {
    LeftParen,
    RightParen,
    Identifier(Seq<char>),
    And,
    Or,
    Not,
    Xor,
    EndOfInput,
}

impl View for TokenKind {
    type V = KindView;

    open spec fn view(&self) -> KindView {
        match self {
            TokenKind::LeftParen => KindView::LeftParen,
            TokenKind::RightParen => KindView::RightParen,
            TokenKind::Identifier(name) => KindView::Identifier(name@),
            TokenKind::And => KindView::And,
            TokenKind::Or => KindView::Or,
            TokenKind::Not => KindView::Not,
            TokenKind::Xor => KindView::Xor,
            TokenKind::EndOfInput => KindView::EndOfInput,
        }
    }
}

/// One of the three binary operators.
pub open spec fn is_binop(k: KindView) -> bool {
    k is And || k is Or || k is Xor
}

impl TokenKind {
    pub fn copy(&self) -> (r: TokenKind)
        ensures
            r@ == self@,
    {
        match self {
            TokenKind::LeftParen => TokenKind::LeftParen,
            TokenKind::RightParen => TokenKind::RightParen,
            TokenKind::Identifier(name) => TokenKind::Identifier(name.clone()),
            TokenKind::And => TokenKind::And,
            TokenKind::Or => TokenKind::Or,
            TokenKind::Not => TokenKind::Not,
            TokenKind::Xor => TokenKind::Xor,
            TokenKind::EndOfInput => TokenKind::EndOfInput,
        }
    }

    pub fn is_binop(&self) -> (r: bool)
        ensures
            r == is_binop(self@),
    {
        match self {
            TokenKind::And | TokenKind::Or | TokenKind::Xor => true,
            _ => false,
        }
    }
}

/// A token and the place at which the tokenizer recognised it.
pub struct Token {
    pub kind: TokenKind,
    pub col: u32,
    pub line: u32,
}

pub struct TokenView {
    pub kind: KindView,
    pub col: int,
    pub line: int,
}

impl View for Token {
    type V = TokenView;

    open spec fn view(&self) -> TokenView {
        TokenView { kind: self.kind@, col: self.col as int, line: self.line as int }
    }
}

/// The views of a sequence of tokens.
pub open spec fn views(ts: Seq<Token>) -> Seq<TokenView> {
    ts.map_values(|t: Token| t@)
}

impl Token {
    pub fn copy(&self) -> (r: Token)
        ensures
            r@ == self@,
    {
        Token { kind: self.kind.copy(), col: self.col, line: self.line }
    }
}

/// What went wrong.
pub enum ErrorKind {
    /// The tokenizer met a character that starts no token.
    UnexpectedCharacter(char),
    /// The parser met this token where it expected a component or `)`.
    UnexpectedToken(TokenKind),
    /// The evaluator met this token between two operands.
    UnexpectedOperation(TokenKind),
}

pub enum ErrorKindView {
    UnexpectedCharacter(char),
    UnexpectedToken(KindView),
    UnexpectedOperation(KindView),
}

impl View for ErrorKind {
    type V = ErrorKindView;

    open spec fn view(&self) -> ErrorKindView {
        match self {
            ErrorKind::UnexpectedCharacter(c) => ErrorKindView::UnexpectedCharacter(*c),
            ErrorKind::UnexpectedToken(k) => ErrorKindView::UnexpectedToken(k@),
            ErrorKind::UnexpectedOperation(k) => ErrorKindView::UnexpectedOperation(k@),
        }
    }
}

/// An error and the place in the text that it points at.
pub struct ErrorPosition {
    pub kind: ErrorKind,
    pub line: u32,
    pub col_range: (u32, u32),
}

pub struct ErrorView {
    pub kind: ErrorKindView,
    pub line: int,
    pub col_range: (int, int),
}

impl View for ErrorPosition {
    type V = ErrorView;

    open spec fn view(&self) -> ErrorView {
        ErrorView {
            kind: self.kind@,
            line: self.line as int,
            col_range: (self.col_range.0 as int, self.col_range.1 as int),
        }
    }
}

/// The error of `kind` at the place of token `t`.
pub open spec fn error_at(kind: ErrorKindView, t: TokenView) -> ErrorView {
    ErrorView { kind, line: t.line, col_range: (t.col, t.col) }
}

/// The name of a token kind as messages show it.
pub open spec fn kind_text(k: KindView) -> Seq<char> {
    match k {
        KindView::LeftParen => "LeftParen"@,
        KindView::RightParen => "RightParen"@,
        KindView::Identifier(name) => "Identifier("@ + name + ")"@,
        KindView::And => "And"@,
        KindView::Or => "Or"@,
        KindView::Not => "Not"@,
        KindView::Xor => "Xor"@,
        KindView::EndOfInput => "EndOfInput"@,
    }
}

/// The human-readable message of an error.
pub open spec fn message_of(k: ErrorKindView) -> Seq<char> {
    match k {
        ErrorKindView::UnexpectedCharacter(c) => "Unexpected character: "@ + seq![c],
        ErrorKindView::UnexpectedToken(t) => "Unexpected token: "@ + kind_text(t),
        ErrorKindView::UnexpectedOperation(t) => "Unexpected operation: "@ + kind_text(t),
    }
}

/// Relies on `char::to_string` (through `Display` for `char`): a string of
/// that one character.
#[verifier::external_body]
fn char_to_string(c: char) -> (r: String)
    ensures
        r@ == seq![c],
{
    c.to_string()
}

impl TokenKind {
    /// The name of this kind as messages show it.
    pub fn text(&self) -> (r: String)
        ensures
            r@ == kind_text(self@),
    {
        match self {
            TokenKind::LeftParen => String::from_str("LeftParen"),
            TokenKind::RightParen => String::from_str("RightParen"),
            TokenKind::Identifier(name) => {
                String::from_str("Identifier(").concat(name.as_str()).concat(")")
            },
            TokenKind::And => String::from_str("And"),
            TokenKind::Or => String::from_str("Or"),
            TokenKind::Not => String::from_str("Not"),
            TokenKind::Xor => String::from_str("Xor"),
            TokenKind::EndOfInput => String::from_str("EndOfInput"),
        }
    }
}

impl ErrorPosition {
    /// The human-readable message of this error.
    pub fn message(&self) -> (r: String)
        ensures
            r@ == message_of(self.kind@),
    {
        match &self.kind {
            ErrorKind::UnexpectedCharacter(c) => {
                let ch = char_to_string(*c);
                String::from_str("Unexpected character: ").concat(ch.as_str())
            },
            ErrorKind::UnexpectedToken(k) => {
                let t = k.text();
                String::from_str("Unexpected token: ").concat(t.as_str())
            },
            ErrorKind::UnexpectedOperation(k) => {
                let t = k.text();
                String::from_str("Unexpected operation: ").concat(t.as_str())
            },
        }
    }

    pub fn from_token(kind: ErrorKind, tok: &Token) -> (r: Self)
        ensures
            r@ == error_at(kind@, tok@),
    {
        Self { kind, line: tok.line, col_range: (tok.col, tok.col) }
    }
}

} // verus!
