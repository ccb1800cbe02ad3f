//! Telling whether a statement starts at the cursor, and of which kind.

use vstd::prelude::*;
use crate::parser::Parser;
use crate::scan::nth_non_trivia;
use crate::start_maps::{entry, levels, names, narrow, narrowed, StartPatternView, TokenStatement};
use crate::syntax_kind::SyntaxKind;
use crate::token::{kind_at, Token};

verus! {

/// The candidates that are left of `candidates` when the lookahead maps from
/// depth `depth` on are asked about the tokens that follow `pos`, trivia not
/// counted.
///
/// Each map keeps the candidates that it lists too for its token. The walk
/// ends at the first depth whose map lists none of them, and where a single
/// candidate is left whose start tokens are complete.
pub open spec fn refined(
    patterns: Seq<StartPatternView>,
    tokens: Seq<Token>,
    pos: int,
    candidates: Seq<TokenStatement>,
    depth: int,
) -> Seq<TokenStatement>
    decreases levels(patterns) - depth,
{
    if depth < 1 || depth >= levels(patterns) || (candidates.len() == 1
        && candidates[0].ends_start()) {
        candidates
    } else {
        let token = kind_at(tokens, nth_non_trivia(tokens, pos, depth as nat));
        let kept = narrowed(entry(patterns, depth, token), candidates);
        if kept.len() == 0 {
            candidates
        } else {
            refined(patterns, tokens, pos, kept, depth + 1)
        }
    }
}

/// The statements that may start with the token at `pos`: none at trivia or
/// past the last token, else what the first map lists for the token,
/// refined by the maps after it.
pub open spec fn start_candidates(
    patterns: Seq<StartPatternView>,
    tokens: Seq<Token>,
    pos: int,
) -> Seq<TokenStatement> {
    if 0 <= pos < tokens.len() && !tokens[pos].kind.trivia() {
        refined(patterns, tokens, pos, entry(patterns, 0, tokens[pos].kind), 1)
    } else {
        Seq::empty()
    }
}

/// Index of the first candidate from `from` on whose start tokens are
/// complete; the number of candidates if there is none.
pub open spec fn first_complete(candidates: Seq<TokenStatement>, from: int) -> int
    decreases candidates.len() - from,
{
    if from < 0 || from >= candidates.len() || candidates[from].ends_start() {
        from
    } else {
        first_complete(candidates, from + 1)
    }
}

/// Index of the candidate that is taken where several are left: the first
/// one whose start tokens are complete, or else the first one.
pub open spec fn preferred(candidates: Seq<TokenStatement>) -> int {
    if first_complete(candidates, 0) < candidates.len() {
        first_complete(candidates, 0)
    } else {
        0
    }
}

/// The kind of the statement that starts with the token at `pos`, if one
/// does: that of the preferred one among the statements that may start
/// there.
pub open spec fn statement_start(
    patterns: Seq<StartPatternView>,
    tokens: Seq<Token>,
    pos: int,
) -> Option<SyntaxKind> {
    let candidates = start_candidates(patterns, tokens, pos);
    if candidates.len() == 0 {
        None
    } else {
        Some(candidates[preferred(candidates)].statement())
    }
}

/// The first complete candidate is found at or after `from`.
pub proof fn lemma_first_complete(candidates: Seq<TokenStatement>, from: int)
    requires
        0 <= from <= candidates.len(),
    ensures
        from <= first_complete(candidates, from) <= candidates.len(),
    decreases candidates.len() - from,
{
    if from < candidates.len() && !candidates[from].ends_start() {
        lemma_first_complete(candidates, from + 1);
    }
}

/// What is kept of `found` is listed by `found` and by `candidates`.
pub proof fn lemma_narrowed_names(
    found: Seq<TokenStatement>,
    candidates: Seq<TokenStatement>,
    kind: SyntaxKind,
)
    requires
        names(narrowed(found, candidates), kind),
    ensures
        names(found, kind),
        names(candidates, kind),
    decreases found.len(),
{
    let kept = narrowed(found, candidates);
    let i = choose|i: int| 0 <= i < kept.len() && (#[trigger] kept[i]).statement() == kind;
    if found.len() > 0 {
        let before = narrowed(found.drop_last(), candidates);
        if i < before.len() {
            assert(before[i].statement() == kind);
            lemma_narrowed_names(found.drop_last(), candidates, kind);
            let j = choose|j: int|
                0 <= j < found.drop_last().len() && (#[trigger] found.drop_last()[j]).statement()
                    == kind;
            assert(found[j].statement() == kind);
        } else {
            assert(found[found.len() - 1].statement() == kind);
        }
    }
}

/// Refining adds no statement: what is left was listed before.
pub proof fn lemma_refined_names(
    patterns: Seq<StartPatternView>,
    tokens: Seq<Token>,
    pos: int,
    candidates: Seq<TokenStatement>,
    depth: int,
    kind: SyntaxKind,
)
    requires
        names(refined(patterns, tokens, pos, candidates, depth), kind),
    ensures
        names(candidates, kind),
    decreases levels(patterns) - depth,
{
    if depth < 1 || depth >= levels(patterns) || (candidates.len() == 1
        && candidates[0].ends_start()) {
    } else {
        let token = kind_at(tokens, nth_non_trivia(tokens, pos, depth as nat));
        let found = entry(patterns, depth, token);
        let kept = narrowed(found, candidates);
        if kept.len() != 0 {
            lemma_refined_names(patterns, tokens, pos, kept, depth + 1, kind);
            lemma_narrowed_names(found, candidates, kind);
        }
    }
}

/// Returns the kind of statement that starts at the cursor, if one does.
///
/// Where the tokens fit the start of statements of several kinds, the first
/// of them whose start tokens are complete is returned, or else the first
/// of them, in the order of the tables. The cursor stays.
pub fn is_at_stmt_start(parser: &Parser) -> (start: Option<SyntaxKind>)
    ensures
        start == statement_start(parser@.patterns, parser@.tokens, parser@.pos),
{
    proof {
        parser.lemma_bounds();
    }
    if parser.eof() || parser.at_whitespace() {
        return None;
    }
    let maps = parser.maps();
    let depths = maps.len();
    let mut candidates = maps.get(0, parser.nth(0, false));
    let mut depth: usize = 1;
    let mut done = false;
    while depth < depths && !done
        invariant
            1 <= depth,
            depths == levels(parser@.patterns),
            maps@ == parser@.patterns,
            refined(parser@.patterns, parser@.tokens, parser@.pos, candidates@, depth as int)
                == start_candidates(parser@.patterns, parser@.tokens, parser@.pos),
            done ==> refined(
                parser@.patterns,
                parser@.tokens,
                parser@.pos,
                candidates@,
                depth as int,
            ) == candidates@,
        decreases depths - depth, (if done { 0int } else { 1int }),
    {
        if candidates.len() == 1 && candidates[0].is_eos() {
            done = true;
        } else {
            let found = maps.get(depth, parser.nth(depth, true));
            let kept = narrow(&found, &candidates);
            if kept.len() == 0 {
                done = true;
            } else {
                candidates = kept;
                depth = depth + 1;
            }
        }
    }
    if candidates.len() == 0 {
        return None;
    }
    let mut i: usize = 0;
    while i < candidates.len()
        invariant
            0 <= i <= candidates.len(),
            candidates@ == start_candidates(parser@.patterns, parser@.tokens, parser@.pos),
            first_complete(candidates@, i as int) == first_complete(candidates@, 0),
        decreases candidates.len() - i,
    {
        if candidates[i].is_eos() {
            return Some(candidates[i].kind());
        }
        i = i + 1;
    }
    Some(candidates[0].kind())
}

} // verus!
