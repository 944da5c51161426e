//! One rewrite pass: fold the depths over the tokens and edit the line of
//! each semicolon.
use crate::depth::{depths_after, lemma_depths_bounded, Depths};
use crate::lines::{
    assemble, breaks_of, ends_with_line_break, ends_with_newline, join_lines, line_views,
    lines_of, split_lines,
};
use crate::policy::{action_for, edit_line, rewrite_line, Action};
use crate::token::{lex, lua_tokens, Token, TokenKind};
use vstd::prelude::*;

verus! {

/// The options of a pass.
#[derive(Clone, Copy, Debug, PartialEq, Eq, Structural)]
pub struct RewriteOptions {
    /// Keep semicolons that stand inside brackets.
    pub array_mode: bool,
}

/// Why a text could not be rewritten.
#[derive(Debug)]
pub enum FormatError {
    /// The tokenizer refused the text; the tokenizer's message.
    Tokenize(String),
}

/// The line buffer after the first `n` tokens.
pub open spec fn rewrite_upto(
    lines: Seq<Seq<char>>,
    tokens: Seq<Token>,
    array_mode: bool,
    n: int,
) -> Seq<Seq<char>>
    decreases n,
{
    if n <= 0 {
        lines
    } else {
        let prev = rewrite_upto(lines, tokens, array_mode, n - 1);
        let t = tokens[n - 1];
        if t.kind == TokenKind::Semicolon && 1 <= t.line <= prev.len() {
            let d = depths_after(tokens, n);
            let k = t.line - 1;
            prev.update(k, edit_line(prev[k], action_for(d.0, d.1, array_mode)))
        } else {
            prev
        }
    }
}

/// The line buffer after all the tokens.
pub open spec fn rewritten(lines: Seq<Seq<char>>, tokens: Seq<Token>, array_mode: bool) -> Seq<
    Seq<char>,
> {
    rewrite_upto(lines, tokens, array_mode, tokens.len() as int)
}

/// The text that a pass makes of `code`, given its tokens.
pub open spec fn format_text(code: Seq<char>, tokens: Seq<Token>, array_mode: bool) -> Seq<char> {
    assemble(
        rewritten(lines_of(code), tokens, array_mode),
        breaks_of(code),
        ends_with_newline(code),
    )
}

/// Rewrites the line buffer for every semicolon of `tokens`. A semicolon
/// whose line is not in the buffer changes nothing.
pub fn rewrite_lines(lines: &mut Vec<Vec<char>>, tokens: &Vec<Token>, options: &RewriteOptions)
    ensures
        line_views(final(lines)@) == rewritten(line_views(old(lines)@), tokens@, options.array_mode),
{
    let ghost start = line_views(lines@);
    let mut depths = Depths::new();
    let mut i: usize = 0;
    while i < tokens.len()
        invariant
            i <= tokens.len(),
            depths.view() == depths_after(tokens@, i as int),
            line_views(lines@) == rewrite_upto(start, tokens@, options.array_mode, i as int),
        decreases tokens.len() - i,
    {
        proof {
            lemma_depths_bounded(tokens@, i as int);
        }
        let t = tokens[i];
        depths.observe(t.kind);
        if t.kind == TokenKind::Semicolon && 1 <= t.line && t.line <= lines.len() {
            let k = t.line - 1;
            let action = Action::for_semicolon(&depths, options.array_mode);
            let mut line = lines[k].clone();
            assert(line@ == lines@[k as int]@);
            rewrite_line(&mut line, action);
            let ghost prev = line_views(lines@);
            let ghost edited = line@;
            lines.set(k, line);
            assert(line_views(lines@) =~= prev.update(k as int, edited));
        }
        i = i + 1;
    }
}

/// Rewrites `code`, whose tokens are `tokens`.
pub fn format_with_tokens(code: &str, tokens: &Vec<Token>, options: &RewriteOptions) -> (r: String)
    ensures
        r@ == format_text(code@, tokens@, options.array_mode),
{
    let (mut lines, crlf) = split_lines(code);
    rewrite_lines(&mut lines, tokens, options);
    join_lines(&lines, &crlf, ends_with_line_break(code))
}

/// Rewrites `code`: stripped semicolons, commas in literals. Fails only where
/// the tokenizer refuses the text.
pub fn format_source(code: &str, options: &RewriteOptions) -> (r: Result<String, FormatError>)
    ensures
        lua_tokens(code@) is None <==> r is Err,
        r matches Ok(s) ==> s@ == format_text(code@, lua_tokens(code@)->0, options.array_mode),
{
    match lex(code) {
        Ok(tokens) => Ok(format_with_tokens(code, &tokens, options)),
        Err(e) => Err(FormatError::Tokenize(e.to_string())),
    }
}

} // verus!
