//! Looking ahead in a token sequence past whitespace and comments.

use vstd::prelude::*;
use crate::token::Token;

verus! {

/// Index of the first token at or after `pos` that is no trivia, or the
/// number of tokens if only trivia is left.
pub open spec fn skip_trivia(tokens: Seq<Token>, pos: int) -> int
    decreases tokens.len() - pos,
{
    if 0 <= pos < tokens.len() && tokens[pos].kind.trivia() {
        skip_trivia(tokens, pos + 1)
    } else {
        pos
    }
}

/// Index of the token that `n` tokens follow on from `pos` when trivia is
/// not counted: for `n == 0` the first token at or after `pos` that is no
/// trivia. The number of tokens if there is no such token.
pub open spec fn nth_non_trivia(tokens: Seq<Token>, pos: int, n: nat) -> int
    decreases n,
{
    let first = skip_trivia(tokens, pos);
    if n == 0 || first >= tokens.len() {
        first
    } else {
        nth_non_trivia(tokens, first + 1, (n - 1) as nat)
    }
}

/// Skipping trivia moves forward, stays within the tokens, passes trivia
/// only and stops at a token that is none.
pub proof fn lemma_skip_trivia(tokens: Seq<Token>, pos: int)
    requires
        0 <= pos <= tokens.len(),
    ensures
        pos <= skip_trivia(tokens, pos) <= tokens.len(),
        skip_trivia(tokens, pos) < tokens.len() ==> !tokens[skip_trivia(tokens, pos)].kind.trivia(),
        forall|i: int| pos <= i < skip_trivia(tokens, pos) ==> (#[trigger] tokens[i]).kind.trivia(),
    decreases tokens.len() - pos,
{
    if pos < tokens.len() && tokens[pos].kind.trivia() {
        lemma_skip_trivia(tokens, pos + 1);
    }
}

} // verus!
