//! Going through a whole source, statement by statement.
//!
//! [`next_request`] says what the grammar engine is to be asked next, and
//! [`resolve`] takes its answer; a caller that calls the engine itself
//! alternates the two until nothing is left to ask. [`source`] does the
//! same with an engine that it is handed as a function.

use vstd::prelude::*;
use std::ops::Range;
use crate::bridge::{judged, statement_text, EngineOutcome};
use crate::parser::{committed, lemma_emitted_tokens, Parser, ParserView, Segment, SegmentKind};
use crate::scan::{lemma_skip_trivia, skip_trivia};
use crate::start_maps::{entry, names, StartPatternView};
use crate::statement::{
    can_start, collect_statement_token_range, collect_unknown_token_range, lemma_settled, settled,
    statement, statement_end, unknown_end, unknown_statement,
};
use crate::statement_start::{
    is_at_stmt_start, lemma_first_complete, lemma_refined_names, preferred, start_candidates,
    statement_start,
};
use crate::syntax_kind::SyntaxKind;
use crate::token::{text_of, Token};

verus! {

/// What the grammar engine is to be asked: the text of the tokens in
/// `range`, which is `text`. `kind` is the kind of statement that starts
/// there, if one does.
#[derive(Debug, PartialEq, Eq)]
pub struct Request {
    pub kind: Option<SyntaxKind>,
    pub range: Range<usize>,
    pub text: String,
}

/// Where the statement or the run of tokens that begins at `pos` ends.
pub open spec fn pending_end(patterns: Seq<StartPatternView>, tokens: Seq<Token>, pos: int) -> int {
    match statement_start(patterns, tokens, pos) {
        Some(kind) => statement_end(patterns, tokens, pos, kind),
        None => unknown_end(patterns, tokens, pos),
    }
}

/// A kind that is found to start at a token can start there: asking for
/// the statement that [`is_at_stmt_start`] names never fails.
pub proof fn lemma_found_start_can_start(
    patterns: Seq<StartPatternView>,
    tokens: Seq<Token>,
    pos: int,
    kind: SyntaxKind,
)
    requires
        statement_start(patterns, tokens, pos) == Some(kind),
    ensures
        0 <= pos < tokens.len(),
        can_start(patterns, tokens, pos, kind),
{
    let candidates = start_candidates(patterns, tokens, pos);
    lemma_first_complete(candidates, 0);
    assert(candidates[preferred(candidates)].statement() == kind);
    lemma_refined_names(patterns, tokens, pos, entry(patterns, 0, tokens[pos].kind), 1, kind);
}

/// Moves the cursor over whitespace and comments, emits them, and says what
/// the grammar engine is to be asked next, if any token is left.
pub fn next_request(parser: &mut Parser) -> (request: Option<Request>)
    requires
        old(parser)@.wf(),
    ensures
        final(parser)@.wf(),
        final(parser)@ == old(parser)@.at(
            skip_trivia(old(parser)@.tokens, old(parser)@.pos),
        ).emitted(SegmentKind::Tokens),
        request is None <==> final(parser)@.at_end(),
        request matches Some(asked) ==> {
            &&& asked.kind == statement_start(
                final(parser)@.patterns,
                final(parser)@.tokens,
                final(parser)@.pos,
            )
            &&& asked.range.start == final(parser)@.pos
            &&& asked.range.end == pending_end(
                final(parser)@.patterns,
                final(parser)@.tokens,
                final(parser)@.pos,
            )
            &&& asked.range.start < asked.range.end <= final(parser)@.tokens.len()
            &&& asked.text@ == text_of(
                final(parser)@.tokens,
                asked.range.start as int,
                asked.range.end as int,
            )
        },
{
    proof {
        parser.lemma_bounds();
        lemma_skip_trivia(parser@.tokens, parser@.pos);
    }
    parser.eat_whitespace();
    parser.emit_tokens();
    if parser.eof() {
        return None;
    }
    let kind = is_at_stmt_start(parser);
    let collected = match kind {
        Some(kind) => {
            proof {
                lemma_found_start_can_start(parser@.patterns, parser@.tokens, parser@.pos, kind);
            }
            collect_statement_token_range(parser, kind)
        },
        None => collect_unknown_token_range(parser),
    };
    match collected {
        Ok(range) => {
            let text = statement_text(parser, &range);
            Some(Request { kind, range, text })
        },
        Err(_) => {
            assert(false);
            None
        },
    }
}

/// Settles the statement or the run of tokens at the cursor with the
/// grammar engine's answer to its text, and gives its range. At the end of
/// the buffer nothing is left to settle and nothing changes.
pub fn resolve(parser: &mut Parser, outcome: EngineOutcome) -> (resolved: Option<Range<usize>>)
    requires
        old(parser)@.wf(),
    ensures
        final(parser)@.wf(),
        resolved is None <==> old(parser)@.at_end(),
        resolved is None ==> final(parser)@ == old(parser)@,
        resolved matches Some(range) ==> {
            &&& range.start == old(parser)@.pos
            &&& range.end == pending_end(
                old(parser)@.patterns,
                old(parser)@.tokens,
                old(parser)@.pos,
            )
            &&& range.start < range.end
            &&& final(parser)@ == settled(old(parser)@, range.end as int, judged(outcome))
            &&& final(parser)@.pos == range.end
        },
{
    proof {
        parser.lemma_bounds();
    }
    if parser.eof() {
        return None;
    }
    let handled = match is_at_stmt_start(parser) {
        Some(kind) => {
            proof {
                lemma_found_start_can_start(parser@.patterns, parser@.tokens, parser@.pos, kind);
            }
            statement(parser, kind, outcome)
        },
        None => unknown_statement(parser, outcome),
    };
    match handled {
        Ok(range) => Some(range),
        Err(_) => {
            assert(false);
            None
        },
    }
}

/// The state after the cursor has moved over trivia and the trivia has
/// been emitted: the state in which the grammar engine is asked.
pub open spec fn ready(state: ParserView) -> ParserView {
    state.at(skip_trivia(state.tokens, state.pos)).emitted(SegmentKind::Tokens)
}

/// The state after one more statement, or run of tokens that starts none,
/// has been settled with the verdict `verdict`.
pub open spec fn stepped(state: ParserView, verdict: Result<usize, Seq<char>>) -> ParserView {
    let asked = ready(state);
    settled(asked, pending_end(asked.patterns, asked.tokens, asked.pos), verdict)
}

/// The state after as many steps as there are verdicts, each settled with
/// its verdict, in order.
pub open spec fn ran(state: ParserView, verdicts: Seq<Result<usize, Seq<char>>>) -> ParserView
    decreases verdicts.len(),
{
    if verdicts.len() == 0 {
        state
    } else {
        stepped(ran(state, verdicts.drop_last()), verdicts.last())
    }
}

/// `engine` may answer `text` with an outcome that comes to `verdict`.
pub open spec fn answers<F: Fn(&str) -> EngineOutcome>(
    engine: F,
    text: Seq<char>,
    verdict: Result<usize, Seq<char>>,
) -> bool {
    exists|asked: &str, outcome: EngineOutcome|
        asked@ == text && #[trigger] engine.ensures((asked,), outcome) && judged(outcome)
            == verdict
}

/// Step `k` of a run from `state` is one that [`source`] makes: tokens are
/// left to ask about, and the verdict is what `engine` may answer to the
/// text of the statement that is settled in that step.
pub open spec fn step_answered<F: Fn(&str) -> EngineOutcome>(
    engine: F,
    state: ParserView,
    verdicts: Seq<Result<usize, Seq<char>>>,
    k: int,
) -> bool {
    let asked = ready(ran(state, verdicts.take(k)));
    &&& !asked.at_end()
    &&& answers(
        engine,
        text_of(asked.tokens, asked.pos, pending_end(asked.patterns, asked.tokens, asked.pos)),
        verdicts[k],
    )
}

/// The segment is one that going through a source makes: a run of trivia
/// up to the first token that is none, or else the statement or the run
/// of tokens that begins with its first token.
pub open spec fn segment_is_split(
    patterns: Seq<StartPatternView>,
    tokens: Seq<Token>,
    segment: Segment,
) -> bool {
    if segment.kind == SegmentKind::Tokens {
        segment.end == skip_trivia(tokens, segment.start as int)
    } else {
        &&& !tokens[segment.start as int].kind.trivia()
        &&& segment.end == pending_end(patterns, tokens, segment.start as int)
    }
}

/// Goes through the rest of the source: asks `engine` about the text of
/// each statement and each run of tokens that starts none, in order, and
/// settles it with the answer.
///
/// When it returns, every token has been emitted. Which tokens make up a
/// segment is decided by the tokens alone; what `engine` answers decides
/// only whether a statement is recorded as accepted or as rejected. The
/// state is the one that the steps lead to when each is settled with the
/// verdict that `engine` gave of its text, and there are no more steps
/// than tokens.
pub fn source<F: Fn(&str) -> EngineOutcome>(parser: &mut Parser, engine: F)
    requires
        old(parser)@.wf(),
        forall|text: &str| engine.requires((text,)),
    ensures
        final(parser)@.wf(),
        exists|verdicts: Seq<Result<usize, Seq<char>>>|
            {
                &&& final(parser)@ == ready(#[trigger] ran(old(parser)@, verdicts))
                &&& verdicts.len() <= final(parser)@.tokens.len()
                &&& forall|k: int|
                    0 <= k < verdicts.len() ==> #[trigger] step_answered(
                        engine,
                        old(parser)@,
                        verdicts,
                        k,
                    )
            },
        final(parser)@.tokens == old(parser)@.tokens,
        final(parser)@.patterns == old(parser)@.patterns,
        final(parser)@.at_end(),
        committed(final(parser)@.segments) == final(parser)@.tokens.len(),
        old(parser)@.segments.len() <= final(parser)@.segments.len(),
        final(parser)@.segments.take(old(parser)@.segments.len() as int) == old(parser)@.segments,
        forall|i: int|
            old(parser)@.segments.len() <= i < final(parser)@.segments.len() && old(parser)@.pos
                <= (#[trigger] final(parser)@.segments[i]).start ==> segment_is_split(
                final(parser)@.patterns,
                final(parser)@.tokens,
                final(parser)@.segments[i],
            ),
{
    proof {
        parser.lemma_bounds();
        assert(parser@.segments.take(parser@.segments.len() as int) == parser@.segments);
    }
    let mut more = true;
    let ghost mut verdicts: Seq<Result<usize, Seq<char>>> = Seq::empty();
    while more
        invariant
            parser@.wf(),
            more ==> parser@ == ran(old(parser)@, verdicts),
            verdicts.len() <= parser@.pos - old(parser)@.pos,
            !more ==> parser@ == ready(ran(old(parser)@, verdicts)),
            forall|k: int|
                0 <= k < verdicts.len() ==> #[trigger] step_answered(
                    engine,
                    old(parser)@,
                    verdicts,
                    k,
                ),
            parser@.tokens == old(parser)@.tokens,
            parser@.patterns == old(parser)@.patterns,
            old(parser)@.pos <= parser@.pos,
            parser@ == old(parser)@ || committed(parser@.segments) == parser@.pos,
            !more ==> parser@.at_end() && committed(parser@.segments) == parser@.pos,
            old(parser)@.segments.len() <= parser@.segments.len(),
            parser@.segments.take(old(parser)@.segments.len() as int) == old(parser)@.segments,
            forall|text: &str| engine.requires((text,)),
            forall|i: int|
                old(parser)@.segments.len() <= i < parser@.segments.len() && old(parser)@.pos <= (
                #[trigger] parser@.segments[i]).start ==> segment_is_split(
                    parser@.patterns,
                    parser@.tokens,
                    parser@.segments[i],
                ),
        decreases parser@.tokens.len() - parser@.pos, (if more { 1int } else { 0int }),
    {
        let ghost before = parser@;
        proof {
            parser.lemma_bounds();
            lemma_skip_trivia(before.tokens, before.pos);
            lemma_emitted_tokens(before.at(skip_trivia(before.tokens, before.pos)));
        }
        match next_request(parser) {
            None => {
                more = false;
            },
            Some(request) => {
                let ghost asked = parser@;
                let text = request.text.as_str();
                let outcome = engine(text);
                proof {
                    lemma_settled(asked, request.range.end as int, judged(outcome));
                    let longer = verdicts.push(judged(outcome));
                    assert(longer.drop_last() == verdicts);
                    assert(longer.take(verdicts.len() as int) == verdicts);
                    assert(engine.ensures((text,), outcome));
                    assert(step_answered(engine, old(parser)@, longer, verdicts.len() as int));
                    assert forall|k: int| 0 <= k < verdicts.len() implies #[trigger] step_answered(
                        engine,
                        old(parser)@,
                        longer,
                        k,
                    ) by {
                        assert(longer.take(k) == verdicts.take(k));
                        assert(step_answered(engine, old(parser)@, verdicts, k));
                    }
                    verdicts = longer;
                }
                let _ = resolve(parser, outcome);
            },
        }
        proof {
            assert(parser@.segments.take(old(parser)@.segments.len() as int) =~= old(parser)@
                .segments);
        }
    }
}

} // verus!
