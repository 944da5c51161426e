//! The tokens that the rewrite reads, and the tokenizer that yields them.
use full_moon::tokenizer::{self, Symbol, TokenType, TokenizerError};
use vstd::prelude::*;

verus! {

/// What a token is, as far as the rewrite cares.
#[derive(Clone, Copy, Debug, PartialEq, Eq, Structural)]
pub enum TokenKind {
    LeftBrace,
    RightBrace,
    LeftBracket,
    RightBracket,
    /// The `function` keyword.
    Function,
    /// The `end` keyword.
    End,
    Semicolon,
    /// Any token that changes neither depth nor text.
    Other,
}

/// A token: its kind and the 1-based line on which it begins.
#[derive(Clone, Copy, Debug, PartialEq, Eq, Structural)]
pub struct Token {
    pub kind: TokenKind,
    pub line: usize,
}

impl Token {
    pub fn new(kind: TokenKind, line: usize) -> (r: Token)
        ensures
            r.kind == kind,
            r.line == line,
    {
        Token { kind, line }
    }
}

#[verifier::external_type_specification]
#[verifier::external_body]
pub struct ExTokenizerError(TokenizerError);

/// The tokens of a Lua text, or `None` where the tokenizer refuses the text.
pub uninterp spec fn lua_tokens(text: Seq<char>) -> Option<Seq<Token>>;

/// Relies on `full_moon::tokenizer::tokens`: whether a text tokenizes, and
/// into which tokens, depends on the text alone. Each token is kept with the
/// line its start position gives and the symbol it is.
#[verifier::external_body]
pub(crate) fn lex(code: &str) -> (r: Result<Vec<Token>, TokenizerError>)
    ensures
        r is Ok <==> lua_tokens(code@) is Some,
        r matches Ok(v) ==> v@ == lua_tokens(code@)->0,
{
    tokenizer::tokens(code).map(|ts| ts.iter().map(|t| Token {
        kind: match t.token_type() {
            TokenType::Symbol { symbol: Symbol::LeftBrace } => TokenKind::LeftBrace,
            TokenType::Symbol { symbol: Symbol::RightBrace } => TokenKind::RightBrace,
            TokenType::Symbol { symbol: Symbol::LeftBracket } => TokenKind::LeftBracket,
            TokenType::Symbol { symbol: Symbol::RightBracket } => TokenKind::RightBracket,
            TokenType::Symbol { symbol: Symbol::Function } => TokenKind::Function,
            TokenType::Symbol { symbol: Symbol::End } => TokenKind::End,
            TokenType::Symbol { symbol: Symbol::Semicolon } => TokenKind::Semicolon,
            _ => TokenKind::Other,
        },
        line: t.start_position().line(),
    }).collect())
}

} // verus!
