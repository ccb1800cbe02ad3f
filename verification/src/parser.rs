//! The parse session: the token buffer, the cursor into it, and what has been
//! emitted so far.

use vstd::prelude::*;
use std::ops::Range;
use crate::scan::{nth_non_trivia, skip_trivia};
use crate::start_maps::{statement_start_token_maps, StartPatternView, StartTokenMaps};
use crate::syntax_kind::SyntaxKind;
use crate::text::TextRange;
use crate::token::{check_spans, kind_at, spans_tile, text_range_of, Token};

verus! {

/// What a range of emitted tokens stands for.
#[derive(Clone, Copy, PartialEq, Eq, Debug, Hash, Structural)]
pub enum SegmentKind {
    /// A statement that the grammar engine accepted.
    Statement,
    /// A statement that the grammar engine rejected.
    Error,
    /// Tokens outside of any statement.
    Tokens,
}

/// A range `[start, end)` of token indices emitted as one unit.
#[derive(Clone, Copy, PartialEq, Eq, Debug, Hash, Structural)]
pub struct Segment {
    pub kind: SegmentKind,
    pub start: usize,
    pub end: usize,
}

/// A statement that the grammar engine rejected: its message and the bytes
/// of the statement.
#[derive(Debug, PartialEq, Eq)]
pub struct ParseError {
    pub message: String,
    pub range: TextRange,
}

/// A rejected statement as contracts speak of it.
pub struct ParseErrorView {
    pub message: Seq<char>,
    pub range: TextRange,
}

impl View for ParseError {
    type V = ParseErrorView;

    open spec fn view(&self) -> ParseErrorView {
        ParseErrorView { message: self.message@, range: self.range }
    }
}

/// A statement that the grammar engine accepted: which of the engine's nodes
/// is its root, and the bytes of the statement.
#[derive(Clone, Copy, PartialEq, Eq, Debug, Hash, Structural)]
pub struct RawStmt {
    pub root: usize,
    pub range: TextRange,
}

/// Token index at which segment `i` has to start: where the segment before
/// it ends. For `i == segments.len()` this is the index up to which tokens
/// have been emitted.
pub open spec fn segment_start(segments: Seq<Segment>, i: int) -> int {
    if i <= 0 {
        0
    } else {
        segments[i - 1].end as int
    }
}

/// Segment `i` holds a token and starts where the segment before it ends.
pub open spec fn segment_fits(segments: Seq<Segment>, i: int) -> bool {
    &&& segments[i].start == segment_start(segments, i)
    &&& segments[i].start < segments[i].end
}

/// The segments follow each other from the first token on, without a gap,
/// an overlap or an empty segment.
pub open spec fn segments_tile(segments: Seq<Segment>) -> bool {
    forall|i: int| 0 <= i < segments.len() ==> #[trigger] segment_fits(segments, i)
}

/// Token index up to which tokens have been emitted.
pub open spec fn committed(segments: Seq<Segment>) -> int {
    segment_start(segments, segments.len() as int)
}

/// Byte ranges of the segments of kind `kind`, in order.
pub open spec fn ranges_of(tokens: Seq<Token>, segments: Seq<Segment>, kind: SegmentKind) -> Seq<
    TextRange,
>
    decreases segments.len(),
{
    if segments.len() == 0 {
        Seq::empty()
    } else {
        let before = ranges_of(tokens, segments.drop_last(), kind);
        let last = segments.last();
        if last.kind == kind {
            before.push(text_range_of(tokens, last.start as int, last.end as int))
        } else {
            before
        }
    }
}

/// The state of a parse session as contracts speak of it.
pub struct ParserView {
    /// The tokens of the source.
    pub tokens: Seq<Token>,
    /// Index of the token under the cursor.
    pub pos: int,
    /// The patterns of the lookahead tables.
    pub patterns: Seq<StartPatternView>,
    /// The rejected statements, in the order they were met.
    pub errors: Seq<ParseErrorView>,
    /// The accepted statements, in the order they were met.
    pub stmts: Seq<RawStmt>,
    /// What has been emitted, in order.
    pub segments: Seq<Segment>,
}

impl ParserView {
    /// The state a session starts in.
    pub open spec fn start(tokens: Seq<Token>, patterns: Seq<StartPatternView>) -> ParserView {
        ParserView {
            tokens,
            pos: 0,
            patterns,
            errors: Seq::empty(),
            stmts: Seq::empty(),
            segments: Seq::empty(),
        }
    }

    /// The token spans tile the source, the segments tile the tokens that
    /// have been emitted, and the cursor is not behind them. The accepted
    /// statements are the segments of kind `Statement`, each with the bytes
    /// of its segment, and the rejected ones those of kind `Error`.
    pub open spec fn wf(self) -> bool {
        &&& spans_tile(self.tokens)
        &&& segments_tile(self.segments)
        &&& committed(self.segments) <= self.pos <= self.tokens.len()
        &&& self.stmts.map_values(|s: RawStmt| s.range) == ranges_of(
            self.tokens,
            self.segments,
            SegmentKind::Statement,
        )
        &&& self.errors.map_values(|e: ParseErrorView| e.range) == ranges_of(
            self.tokens,
            self.segments,
            SegmentKind::Error,
        )
    }

    /// No token is left under the cursor.
    pub open spec fn at_end(self) -> bool {
        self.pos >= self.tokens.len()
    }

    /// Kind of the token under the cursor, `Eof` at the end.
    pub open spec fn current(self) -> SyntaxKind {
        kind_at(self.tokens, self.pos)
    }

    /// Kind of the token `lookahead` tokens after the one under the cursor,
    /// counting trivia or not.
    pub open spec fn nth(self, lookahead: nat, ignore_whitespace: bool) -> SyntaxKind {
        if ignore_whitespace {
            kind_at(self.tokens, nth_non_trivia(self.tokens, self.pos, lookahead))
        } else {
            kind_at(self.tokens, self.pos + lookahead)
        }
    }

    /// The state with the cursor at `pos`.
    pub open spec fn at(self, pos: int) -> ParserView {
        ParserView { pos, ..self }
    }

    /// The state after the tokens between the last segment and the cursor
    /// have been emitted as one segment of kind `kind`.
    pub open spec fn emitted(self, kind: SegmentKind) -> ParserView {
        if committed(self.segments) < self.pos {
            ParserView {
                segments: self.segments.push(
                    Segment {
                        kind,
                        start: committed(self.segments) as usize,
                        end: self.pos as usize,
                    },
                ),
                ..self
            }
        } else {
            self
        }
    }
}

/// One more segment adds its bytes to the ranges of its kind and to no
/// others.
pub proof fn lemma_ranges_of_push(
    tokens: Seq<Token>,
    segments: Seq<Segment>,
    segment: Segment,
    kind: SegmentKind,
)
    ensures
        ranges_of(tokens, segments.push(segment), kind) == if segment.kind == kind {
            ranges_of(tokens, segments, kind).push(
                text_range_of(tokens, segment.start as int, segment.end as int),
            )
        } else {
            ranges_of(tokens, segments, kind)
        },
{
    assert(segments.push(segment).drop_last() == segments);
}

/// A segment from where the segments end up to a later token keeps them
/// tiling.
pub proof fn lemma_tile_push(segments: Seq<Segment>, segment: Segment)
    requires
        segments_tile(segments),
        segment.start == committed(segments),
        segment.start < segment.end,
    ensures
        segments_tile(segments.push(segment)),
        committed(segments.push(segment)) == segment.end,
{
    let after = segments.push(segment);
    assert forall|i: int| 0 <= i < after.len() implies #[trigger] segment_fits(after, i) by {
        if i < segments.len() {
            assert(segment_fits(segments, i));
        }
    }
}

/// Emitting loose tokens keeps the state well formed and leaves nothing
/// behind the cursor that is not emitted.
pub proof fn lemma_emitted_tokens(state: ParserView)
    requires
        state.wf(),
        state.tokens.len() <= usize::MAX,
    ensures
        state.emitted(SegmentKind::Tokens).wf(),
        committed(state.emitted(SegmentKind::Tokens).segments) == state.pos,
{
    if committed(state.segments) < state.pos {
        let segment = Segment {
            kind: SegmentKind::Tokens,
            start: committed(state.segments) as usize,
            end: state.pos as usize,
        };
        lemma_tile_push(state.segments, segment);
        lemma_ranges_of_push(state.tokens, state.segments, segment, SegmentKind::Statement);
        lemma_ranges_of_push(state.tokens, state.segments, segment, SegmentKind::Error);
    }
}

/// A parse session over the tokens of one source.
#[derive(Debug)]
pub struct Parser {
    tokens: Vec<Token>,
    pos: usize,
    maps: StartTokenMaps,
    errors: Vec<ParseError>,
    stmts: Vec<RawStmt>,
    segments: Vec<Segment>,
}

impl View for Parser {
    type V = ParserView;

    closed spec fn view(&self) -> ParserView {
        ParserView {
            tokens: self.tokens@,
            pos: self.pos as int,
            patterns: self.maps@,
            errors: self.errors@.map_values(|e: ParseError| e@),
            stmts: self.stmts@,
            segments: self.segments@,
        }
    }
}

impl Parser {
    /// A session over `tokens` with the default lookahead tables, if the
    /// spans of `tokens` tile the source.
    pub fn new(tokens: Vec<Token>) -> (made: Option<Parser>)
        ensures
            made is Some <==> spans_tile(tokens@),
            made matches Some(parser) ==> parser@ == ParserView::start(
                tokens@,
                crate::start_maps::default_patterns(),
            ) && parser@.wf(),
    {
        Parser::with_maps(tokens, statement_start_token_maps())
    }

    /// A session over `tokens` with the lookahead tables `maps`, if the
    /// spans of `tokens` tile the source.
    pub fn with_maps(tokens: Vec<Token>, maps: StartTokenMaps) -> (made: Option<Parser>)
        ensures
            made is Some <==> spans_tile(tokens@),
            made matches Some(parser) ==> parser@ == ParserView::start(tokens@, maps@)
                && parser@.wf(),
    {
        if !check_spans(&tokens) {
            return None;
        }
        let parser = Parser {
            tokens,
            pos: 0,
            maps,
            errors: Vec::new(),
            stmts: Vec::new(),
            segments: Vec::new(),
        };
        proof {
            assert(parser@.errors =~= Seq::<ParseErrorView>::empty());
            assert(parser@.stmts.map_values(|s: RawStmt| s.range) =~= Seq::<TextRange>::empty());
            assert(parser@.errors.map_values(|e: ParseErrorView| e.range) =~= Seq::<
                TextRange,
            >::empty());
        }
        Some(parser)
    }

    /// The cursor and the number of tokens are machine integers.
    pub proof fn lemma_bounds(&self)
        ensures
            0 <= self@.pos <= usize::MAX,
            self@.tokens.len() <= usize::MAX,
    {
        assert(self.tokens.len() <= usize::MAX);
    }

    /// The tokens of the source.
    pub fn tokens(&self) -> (tokens: &Vec<Token>)
        ensures
            tokens@ == self@.tokens,
    {
        &self.tokens
    }

    /// The lookahead tables.
    pub fn maps(&self) -> (maps: &StartTokenMaps)
        ensures
            maps@ == self@.patterns,
    {
        &self.maps
    }

    /// Index of the token under the cursor.
    pub fn pos(&self) -> (pos: usize)
        ensures
            pos == self@.pos,
    {
        self.pos
    }

    /// The rejected statements, in the order they were met.
    pub fn errors(&self) -> (errors: &Vec<ParseError>)
        ensures
            errors@.map_values(|e: ParseError| e@) == self@.errors,
    {
        &self.errors
    }

    /// The accepted statements, in the order they were met.
    pub fn stmts(&self) -> (stmts: &Vec<RawStmt>)
        ensures
            stmts@ == self@.stmts,
    {
        &self.stmts
    }

    /// What has been emitted, in order.
    pub fn segments(&self) -> (segments: &Vec<Segment>)
        ensures
            segments@ == self@.segments,
    {
        &self.segments
    }

    /// Whether the cursor is past the last token.
    pub fn eof(&self) -> (b: bool)
        ensures
            b == self@.at_end(),
    {
        self.pos >= self.tokens.len()
    }

    /// Whether the token under the cursor is of kind `kind`. At the end of
    /// the buffer that holds of `Eof` alone.
    pub fn at(&self, kind: SyntaxKind) -> (b: bool)
        ensures
            b == (self@.current() == kind),
    {
        self.nth(0, false) == kind
    }

    /// Whether the token under the cursor is whitespace or a comment.
    pub fn at_whitespace(&self) -> (b: bool)
        ensures
            b == self@.current().trivia(),
    {
        self.nth(0, false).is_trivia()
    }

    /// Kind of the token `lookahead` tokens after the one under the cursor;
    /// with `ignore_whitespace`, trivia is not counted and is never the
    /// answer. `Eof` where the buffer ends before that token.
    pub fn nth(&self, lookahead: usize, ignore_whitespace: bool) -> (kind: SyntaxKind)
        ensures
            kind == self@.nth(lookahead as nat, ignore_whitespace),
    {
        let n = self.tokens.len();
        if !ignore_whitespace {
            if self.pos < n && lookahead < n - self.pos {
                return self.tokens[self.pos + lookahead].kind;
            }
            return SyntaxKind::Eof;
        }
        if self.pos >= n {
            return SyntaxKind::Eof;
        }
        let mut idx: usize = self.pos;
        let mut left: usize = lookahead;
        while idx < n
            invariant
                ignore_whitespace,
                n == self.tokens.len(),
                self.pos <= idx <= n,
                nth_non_trivia(self.tokens@, idx as int, left as nat) == nth_non_trivia(
                    self.tokens@,
                    self.pos as int,
                    lookahead as nat,
                ),
            decreases n - idx,
        {
            if self.tokens[idx].kind.is_trivia() {
                idx = idx + 1;
            } else if left == 0 {
                assert(nth_non_trivia(self.tokens@, idx as int, left as nat) == idx);
                return self.tokens[idx].kind;
            } else {
                left = left - 1;
                idx = idx + 1;
            }
        }
        SyntaxKind::Eof
    }

    /// Moves the cursor over one token; at the end of the buffer it stays.
    pub fn advance(&mut self)
        ensures
            final(self)@ == old(self)@.at(
                if old(self)@.at_end() {
                    old(self)@.pos
                } else {
                    old(self)@.pos + 1
                },
            ),
    {
        if self.pos < self.tokens.len() {
            self.pos = self.pos + 1;
        }
    }

    /// Moves the cursor over whitespace and comments.
    pub fn eat_whitespace(&mut self)
        ensures
            final(self)@ == old(self)@.at(skip_trivia(old(self)@.tokens, old(self)@.pos)),
    {
        let n = self.tokens.len();
        while self.pos < n && self.tokens[self.pos].kind.is_trivia()
            invariant
                n == self.tokens.len(),
                self@ == old(self)@.at(self.pos as int),
                skip_trivia(self.tokens@, self.pos as int) == skip_trivia(
                    old(self)@.tokens,
                    old(self)@.pos,
                ),
            decreases n - self.pos,
        {
            self.pos = self.pos + 1;
        }
    }

    /// Moves the cursor over the token under it if that is of kind `kind`,
    /// and says whether it did.
    pub fn eat(&mut self, kind: SyntaxKind) -> (eaten: bool)
        ensures
            eaten == (!old(self)@.at_end() && old(self)@.current() == kind),
            final(self)@ == old(self)@.at(
                if eaten {
                    old(self)@.pos + 1
                } else {
                    old(self)@.pos
                },
            ),
    {
        if self.pos < self.tokens.len() && self.tokens[self.pos].kind == kind {
            self.pos = self.pos + 1;
            true
        } else {
            false
        }
    }

    /// Marks the cursor for a scan ahead: [`Parser::close_buffer`] takes the
    /// cursor back to the mark.
    pub fn open_buffer(&self) -> (mark: usize)
        ensures
            mark == self@.pos,
    {
        self.pos
    }

    /// Ends a scan ahead from `mark`: gives the range of tokens scanned and
    /// takes the cursor back to `mark`. A mark that is ahead of the cursor
    /// or behind what has been emitted gives the empty range at the cursor
    /// and moves nothing.
    pub fn close_buffer(&mut self, mark: usize) -> (scanned: Range<usize>)
        ensures
            committed(old(self)@.segments) <= mark <= old(self)@.pos ==> scanned.start == mark
                && scanned.end == old(self)@.pos && final(self)@ == old(self)@.at(mark as int),
            !(committed(old(self)@.segments) <= mark <= old(self)@.pos) ==> scanned.start
                == old(self)@.pos && scanned.end == old(self)@.pos && final(self)@ == old(self)@,
    {
        let end = self.pos;
        if self.emitted_up_to() <= mark && mark <= end {
            self.pos = mark;
            mark..end
        } else {
            end..end
        }
    }

    /// Token index up to which tokens have been emitted.
    pub fn emitted_up_to(&self) -> (index: usize)
        ensures
            index == committed(self@.segments),
    {
        if self.segments.len() == 0 {
            0
        } else {
            self.segments[self.segments.len() - 1].end
        }
    }

    /// Emits the tokens between the last segment and the cursor as one
    /// segment of kind `kind`, if there are any.
    pub(crate) fn emit(&mut self, kind: SegmentKind)
        ensures
            final(self)@ == old(self)@.emitted(kind),
    {
        let from = self.emitted_up_to();
        if from < self.pos {
            self.segments.push(Segment { kind, start: from, end: self.pos });
        }
    }

    /// Emits the tokens between the last segment and the cursor as tokens
    /// outside of any statement.
    pub fn emit_tokens(&mut self)
        requires
            old(self)@.wf(),
        ensures
            final(self)@ == old(self)@.emitted(SegmentKind::Tokens),
            final(self)@.wf(),
    {
        proof {
            self.lemma_bounds();
            lemma_emitted_tokens(self@);
        }
        self.emit(SegmentKind::Tokens);
    }

    /// Records a rejected statement.
    pub(crate) fn error(&mut self, message: String, range: TextRange)
        ensures
            final(self)@ == (ParserView {
                errors: old(self)@.errors.push(ParseErrorView { message: message@, range }),
                ..old(self)@
            }),
    {
        self.errors.push(ParseError { message, range });
        proof {
            assert(self@.errors =~= old(self)@.errors.push(
                ParseErrorView { message: message@, range },
            ));
        }
    }

    /// Records an accepted statement.
    pub(crate) fn stmt(&mut self, root: usize, range: TextRange)
        ensures
            final(self)@ == (ParserView {
                stmts: old(self)@.stmts.push(RawStmt { root, range }),
                ..old(self)@
            }),
    {
        self.stmts.push(RawStmt { root, range });
    }
}

} // verus!
