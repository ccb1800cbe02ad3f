//! What holds of every parse session, proved from the contracts of the
//! functions that change one.

use vstd::prelude::*;
use crate::parser::{
    committed, ranges_of, segment_fits, segment_start, segments_tile, ParseErrorView, ParserView,
    RawStmt, Segment, SegmentKind,
};
use crate::source::{lemma_found_start_can_start, pending_end, ran, stepped};
use crate::start_maps::StartPatternView;
use crate::statement::{
    lemma_start_tokens_end, lemma_statement_end, lemma_unknown_end, past_terminator, scan_end,
    start_tokens_end, statement_end, ScanState,
};
use crate::statement_start::statement_start;
use crate::syntax_kind::SyntaxKind;
use crate::text::TextRange;
use crate::token::{
    lemma_offsets, lemma_text_of_split, offset_at, source_len, spans_tile, text_of, text_range_of,
    Token,
};

verus! {

/// The bytes of segment `i`.
pub open spec fn segment_bytes(tokens: Seq<Token>, segments: Seq<Segment>, i: int) -> TextRange {
    text_range_of(tokens, segments[i].start as int, segments[i].end as int)
}

/// The text of the segments, one after the other.
pub open spec fn segments_text(tokens: Seq<Token>, segments: Seq<Segment>) -> Seq<char>
    decreases segments.len(),
{
    if segments.len() == 0 {
        Seq::empty()
    } else {
        segments_text(tokens, segments.drop_last()) + text_of(
            tokens,
            segments.last().start as int,
            segments.last().end as int,
        )
    }
}

/// How many more tokens of kind `open` than of kind `close` lie in
/// `[from, to)`.
pub open spec fn nesting(
    tokens: Seq<Token>,
    from: int,
    to: int,
    open: SyntaxKind,
    close: SyntaxKind,
) -> int
    decreases to - from,
{
    if from >= to {
        0
    } else {
        nesting(tokens, from, to - 1, open, close) + if tokens[to - 1].kind == open {
            1int
        } else if tokens[to - 1].kind == close {
            -1int
        } else {
            0int
        }
    }
}

/// Tiling segments lie in order: a later one starts no earlier than an
/// earlier one ends, and all end by the index up to which tokens have been
/// emitted.
pub proof fn lemma_segments_ordered(segments: Seq<Segment>, i: int, j: int)
    requires
        segments_tile(segments),
        0 <= i < j <= segments.len(),
    ensures
        segments[i].end <= segment_start(segments, j),
    decreases j - i,
{
    if i + 1 < j {
        lemma_segments_ordered(segments, i, j - 1);
        assert(segment_fits(segments, j - 1));
    }
}

/// The segments are no more than the tokens they hold.
pub proof fn lemma_segments_counted(segments: Seq<Segment>, i: int)
    requires
        segments_tile(segments),
        0 <= i <= segments.len(),
    ensures
        i <= segment_start(segments, i),
    decreases i,
{
    if i > 0 {
        lemma_segments_counted(segments, i - 1);
        assert(segment_fits(segments, i - 1));
    }
}

/// Each byte of the source belongs to exactly one of the emitted segments,
/// once the whole buffer has been emitted: the segments cover the source
/// without a gap and without an overlap. By the parser's well-formedness,
/// the accepted and the rejected statements are recorded with the bytes of
/// their segments.
pub proof fn theorem_full_coverage(state: ParserView, offset: int)
    requires
        state.wf(),
        committed(state.segments) == state.tokens.len(),
        0 <= offset < source_len(state.tokens),
    ensures
        exists|i: int|
            0 <= i < state.segments.len() && #[trigger] segment_bytes(
                state.tokens,
                state.segments,
                i,
            ).holds(offset),
        forall|i: int, j: int|
            0 <= i < state.segments.len() && 0 <= j < state.segments.len() && (
            #[trigger] segment_bytes(state.tokens, state.segments, i)).holds(offset) && (
            #[trigger] segment_bytes(state.tokens, state.segments, j)).holds(offset) ==> i == j,
{
    lemma_covered(state.tokens, state.segments, state.segments.len() as int, offset);
    assert forall|i: int, j: int|
        0 <= i < state.segments.len() && 0 <= j < state.segments.len() && (
        #[trigger] segment_bytes(state.tokens, state.segments, i)).holds(offset) && (
        #[trigger] segment_bytes(state.tokens, state.segments, j)).holds(offset) implies i
        == j by {
        if i < j {
            lemma_apart(state.tokens, state.segments, i, j);
        } else if j < i {
            lemma_apart(state.tokens, state.segments, j, i);
        }
    }
}

/// A byte before the end of the first `upto` segments lies in one of them.
proof fn lemma_covered(tokens: Seq<Token>, segments: Seq<Segment>, upto: int, offset: int)
    requires
        spans_tile(tokens),
        segments_tile(segments),
        0 <= upto <= segments.len(),
        segment_start(segments, segments.len() as int) <= tokens.len(),
        0 <= offset < offset_at(tokens, segment_start(segments, upto)),
    ensures
        exists|i: int|
            0 <= i < upto && #[trigger] segment_bytes(tokens, segments, i).holds(offset),
    decreases upto,
{
    if upto > 0 {
        let last = segments[upto - 1];
        assert(segment_fits(segments, upto - 1));
        lemma_segments_ordered(segments, upto - 1, segments.len() as int);
        lemma_offsets(tokens, last.start as int, last.end as int);
        if offset < offset_at(tokens, last.start as int) {
            lemma_covered(tokens, segments, upto - 1, offset);
        } else {
            assert(segment_bytes(tokens, segments, upto - 1).holds(offset));
        }
    }
}

/// The bytes of an earlier segment end where those of a later one start,
/// or before.
proof fn lemma_apart(tokens: Seq<Token>, segments: Seq<Segment>, i: int, j: int)
    requires
        spans_tile(tokens),
        segments_tile(segments),
        0 <= i < j < segments.len(),
        segment_start(segments, segments.len() as int) <= tokens.len(),
    ensures
        segment_bytes(tokens, segments, i).end <= segment_bytes(tokens, segments, j).start,
{
    lemma_segments_ordered(segments, i, j);
    lemma_segments_ordered(segments, j, segments.len() as int);
    assert(segment_fits(segments, i));
    assert(segment_fits(segments, j));
    lemma_offsets(tokens, segments[i].end as int, segments[j].start as int);
    lemma_offsets(tokens, segments[i].start as int, segments[i].end as int);
    lemma_offsets(tokens, segments[j].start as int, segments[j].end as int);
}

/// The statement, or the run of tokens that starts none, that begins at a
/// token holds that token and ends within the buffer: each step moves the
/// cursor on.
pub proof fn theorem_step_moves_on(patterns: Seq<StartPatternView>, tokens: Seq<Token>, pos: int)
    requires
        0 <= pos < tokens.len(),
    ensures
        pos < pending_end(patterns, tokens, pos) <= tokens.len(),
{
    match statement_start(patterns, tokens, pos) {
        Some(kind) => {
            lemma_found_start_can_start(patterns, tokens, pos, kind);
            lemma_statement_end(patterns, tokens, pos, kind);
        },
        None => {
            lemma_unknown_end(patterns, tokens, pos);
        },
    }
}

/// Each emitted segment holds a token, so there are no more segments than
/// tokens: going through a source takes no more steps than it has tokens.
/// No more statements are recorded than segments are emitted.
pub proof fn theorem_progress(state: ParserView)
    requires
        state.wf(),
    ensures
        state.segments.len() <= committed(state.segments) <= state.tokens.len(),
        state.stmts.len() + state.errors.len() <= state.segments.len(),
{
    lemma_segments_counted(state.segments, state.segments.len() as int);
    lemma_ranges_counted(state.tokens, state.segments);
    assert(state.stmts.map_values(|s: RawStmt| s.range).len() == state.stmts.len());
    assert(state.errors.map_values(|e: ParseErrorView| e.range).len() == state.errors.len());
}

/// The segments of two kinds are no more than all segments.
proof fn lemma_ranges_counted(tokens: Seq<Token>, segments: Seq<Segment>)
    ensures
        ranges_of(tokens, segments, SegmentKind::Statement).len() + ranges_of(
            tokens,
            segments,
            SegmentKind::Error,
        ).len() <= segments.len(),
    decreases segments.len(),
{
    if segments.len() > 0 {
        lemma_ranges_counted(tokens, segments.drop_last());
    }
}

/// Where the scan for the end of a statement stops before the end of the
/// buffer, it is outside all brackets and blocks: from where it began, as
/// many brackets were closed as were opened, and as many blocks ended as
/// began.
pub proof fn theorem_boundary_is_balanced(
    patterns: Seq<StartPatternView>,
    tokens: Seq<Token>,
    pos: int,
)
    requires
        0 <= pos <= tokens.len(),
    ensures
        scan_end(patterns, tokens, pos, ScanState::initial()) < tokens.len() ==> nesting(
            tokens,
            pos,
            scan_end(patterns, tokens, pos, ScanState::initial()),
            SyntaxKind::Ascii40,
            SyntaxKind::Ascii41,
        ) == 0 && nesting(
            tokens,
            pos,
            scan_end(patterns, tokens, pos, ScanState::initial()),
            SyntaxKind::BeginP,
            SyntaxKind::EndP,
        ) == 0,
{
    lemma_scan_counts(patterns, tokens, pos, pos, ScanState::initial());
}

/// Where a statement ends before the end of the buffer, the tokens between
/// its start tokens and its end, the terminator left out, are balanced.
pub proof fn theorem_statement_is_balanced(
    patterns: Seq<StartPatternView>,
    tokens: Seq<Token>,
    pos: int,
    kind: SyntaxKind,
)
    requires
        0 <= pos <= tokens.len(),
    ensures
        ({
            let body = start_tokens_end(patterns, tokens, pos, kind, 0);
            let stop = scan_end(patterns, tokens, body, ScanState::initial());
            &&& statement_end(patterns, tokens, pos, kind) == past_terminator(tokens, stop)
            &&& stop < tokens.len() ==> nesting(
                tokens,
                body,
                stop,
                SyntaxKind::Ascii40,
                SyntaxKind::Ascii41,
            ) == 0 && nesting(tokens, body, stop, SyntaxKind::BeginP, SyntaxKind::EndP) == 0
        }),
{
    lemma_start_tokens_end(patterns, tokens, pos, kind, 0);
    theorem_boundary_is_balanced(
        patterns,
        tokens,
        start_tokens_end(patterns, tokens, pos, kind, 0),
    );
}

/// The scan's counters are the nesting of the tokens it has passed.
proof fn lemma_scan_counts(
    patterns: Seq<StartPatternView>,
    tokens: Seq<Token>,
    from: int,
    pos: int,
    state: ScanState,
)
    requires
        0 <= from <= pos <= tokens.len(),
        state.sub_stmt == nesting(tokens, from, pos, SyntaxKind::Ascii40, SyntaxKind::Ascii41),
        state.sub_trx == nesting(tokens, from, pos, SyntaxKind::BeginP, SyntaxKind::EndP),
    ensures
        scan_end(patterns, tokens, pos, state) < tokens.len() ==> nesting(
            tokens,
            from,
            scan_end(patterns, tokens, pos, state),
            SyntaxKind::Ascii40,
            SyntaxKind::Ascii41,
        ) == 0 && nesting(
            tokens,
            from,
            scan_end(patterns, tokens, pos, state),
            SyntaxKind::BeginP,
            SyntaxKind::EndP,
        ) == 0,
    decreases tokens.len() - pos,
{
    if pos < tokens.len() && !crate::statement::ends_statement(patterns, tokens, pos, state) {
        lemma_scan_counts(patterns, tokens, from, pos + 1, state.after(tokens[pos].kind));
    }
}

/// The text of the emitted segments, put together in order, is the text of
/// the tokens emitted: splitting loses and adds nothing. Once the whole
/// buffer has been emitted, that is the text of the source.
pub proof fn theorem_text_is_kept(state: ParserView)
    requires
        state.wf(),
    ensures
        segments_text(state.tokens, state.segments) == text_of(
            state.tokens,
            0,
            committed(state.segments),
        ),
{
    lemma_segments_text(state.tokens, state.segments);
}

proof fn lemma_segments_text(tokens: Seq<Token>, segments: Seq<Segment>)
    requires
        segments_tile(segments),
    ensures
        segments_text(tokens, segments) == text_of(tokens, 0, committed(segments)),
    decreases segments.len(),
{
    if segments.len() > 0 {
        let before = segments.drop_last();
        let last = segments.last();
        assert forall|i: int| 0 <= i < before.len() implies #[trigger] segment_fits(before, i) by {
            assert(segment_fits(segments, i));
        }
        assert(segment_fits(segments, segments.len() - 1));
        lemma_segments_text(tokens, before);
        lemma_segments_counted(before, before.len() as int);
        lemma_text_of_split(tokens, 0, last.start as int, last.end as int);
    }
}

/// Nothing that has been recorded or emitted is changed or dropped by
/// going on: the errors, the statements and the segments of a state are
/// still there, in their places, after any number of further steps.
pub proof fn theorem_records_are_kept(state: ParserView, verdicts: Seq<Result<usize, Seq<char>>>)
    ensures
        state.errors.is_prefix_of(ran(state, verdicts).errors),
        state.stmts.is_prefix_of(ran(state, verdicts).stmts),
        state.segments.is_prefix_of(ran(state, verdicts).segments),
        ran(state, verdicts).tokens == state.tokens,
        ran(state, verdicts).patterns == state.patterns,
    decreases verdicts.len(),
{
    if verdicts.len() > 0 {
        theorem_records_are_kept(state, verdicts.drop_last());
        let before = ran(state, verdicts.drop_last());
        let after = stepped(before, verdicts.last());
        assert(before.errors.is_prefix_of(after.errors));
        assert(before.stmts.is_prefix_of(after.stmts));
        assert(before.segments.is_prefix_of(after.segments));
    }
}

} // verus!
