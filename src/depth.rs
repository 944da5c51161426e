//! The two depth counters, folded over the token sequence.
use crate::token::{Token, TokenKind};
use vstd::prelude::*;

verus! {

/// The counters after one more token of kind `k`, from `(bracket, function)`.
pub open spec fn depth_step(bracket: int, function: int, k: TokenKind) -> (int, int) {
    match k {
        TokenKind::LeftBrace | TokenKind::LeftBracket => (bracket + 1, function),
        TokenKind::RightBrace | TokenKind::RightBracket => (bracket - 1, function),
        TokenKind::Function => if bracket != 0 {
            (bracket, function + 1)
        } else {
            (bracket, function)
        },
        TokenKind::End => if bracket != 0 {
            (bracket, function - 1)
        } else {
            (bracket, function)
        },
        _ => (bracket, function),
    }
}

/// The counters `(bracket, function)` after the first `n` tokens, from zero.
pub open spec fn depths_after(tokens: Seq<Token>, n: int) -> (int, int)
    decreases n,
{
    if n <= 0 {
        (0, 0)
    } else {
        let prev = depths_after(tokens, n - 1);
        depth_step(prev.0, prev.1, tokens[n - 1].kind)
    }
}

/// The bracket depth and the function depth of one rewrite pass.
#[derive(Clone, Copy, Debug, PartialEq, Eq, Structural)]
pub struct Depths {
    /// Open `{` and `[` minus closed `}` and `]`.
    pub bracket: i128,
    /// `function` minus `end` keywords, counted inside brackets only.
    pub function: i128,
}

impl Depths {
    pub open spec fn view(self) -> (int, int) {
        (self.bracket as int, self.function as int)
    }

    /// Both counters at zero, as at the start of a pass.
    pub fn new() -> (r: Depths)
        ensures
            r.view() == (0int, 0int),
    {
        Depths { bracket: 0, function: 0 }
    }

    /// Folds one token of kind `k` into the counters.
    pub fn observe(&mut self, k: TokenKind)
        requires
            i128::MIN < old(self).bracket < i128::MAX,
            i128::MIN < old(self).function < i128::MAX,
        ensures
            final(self).view() == depth_step(old(self).bracket as int, old(self).function as int, k),
    {
        match k {
            TokenKind::LeftBrace | TokenKind::LeftBracket => {
                self.bracket = self.bracket + 1;
            },
            TokenKind::RightBrace | TokenKind::RightBracket => {
                self.bracket = self.bracket - 1;
            },
            TokenKind::Function => {
                if self.bracket != 0 {
                    self.function = self.function + 1;
                }
            },
            TokenKind::End => {
                if self.bracket != 0 {
                    self.function = self.function - 1;
                }
            },
            _ => {},
        }
    }
}

/// Each counter moves by at most one per token.
pub proof fn lemma_depths_bounded(tokens: Seq<Token>, n: int)
    requires
        0 <= n,
    ensures
        -n <= depths_after(tokens, n).0 <= n,
        -n <= depths_after(tokens, n).1 <= n,
    decreases n,
{
    if n > 0 {
        lemma_depths_bounded(tokens, n - 1);
    }
}

} // verus!
