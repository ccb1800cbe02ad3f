//! Splitting one statement off the token buffer and settling it with what
//! the grammar engine said of its text.

use vstd::prelude::*;
use std::ops::Range;
use crate::bridge::{judge, judged, EngineOutcome};
use crate::parser::{
    committed, lemma_emitted_tokens, lemma_ranges_of_push, lemma_tile_push, ParseErrorView,
    Parser, ParserView, RawStmt, Segment, SegmentKind,
};
use crate::scan::{lemma_skip_trivia, skip_trivia};
use crate::start_maps::{entry, levels, lists_kind, names, StartPatternView};
use crate::statement_start::{is_at_stmt_start, statement_start};
use crate::syntax_kind::SyntaxKind;
use crate::text::TextRange;
use crate::token::{text_range_of, Token};

verus! {

/// Misuse of the statement functions by their caller. Malformed input never
/// gives one of these: it is recorded with the parser and parsing goes on.
#[derive(Clone, Copy, PartialEq, Eq, Debug, Hash, Structural)]
pub enum StatementError {
    /// The token under the cursor cannot start a statement of the kind asked
    /// for.
    ExpectedStatementStart,
    /// A run of tokens that start no statement was asked for where a
    /// statement starts.
    UnexpectedStatementStart,
    /// A run of tokens was asked for where no token is left.
    UnexpectedEof,
}

impl StatementError {
    /// The error in words.
    pub open spec fn message_text(self) -> Seq<char> {
        match self {
            StatementError::ExpectedStatementStart => "Expected statement start"@,
            StatementError::UnexpectedStatementStart => "Unexpected statement start"@,
            StatementError::UnexpectedEof => "Unexpected end of input"@,
        }
    }

    /// The error in words.
    pub fn message(&self) -> (text: String)
        ensures
            text@ == self.message_text(),
    {
        match self {
            StatementError::ExpectedStatementStart => "Expected statement start".to_owned(),
            StatementError::UnexpectedStatementStart => "Unexpected statement start".to_owned(),
            StatementError::UnexpectedEof => "Unexpected end of input".to_owned(),
        }
    }
}

/// The first token at or after `pos` that is no trivia can start a statement
/// of kind `kind`: the first lookahead map lists `kind` for it.
pub open spec fn can_start(
    patterns: Seq<StartPatternView>,
    tokens: Seq<Token>,
    pos: int,
    kind: SyntaxKind,
) -> bool {
    let first = skip_trivia(tokens, pos);
    0 <= first < tokens.len() && names(entry(patterns, 0, tokens[first].kind), kind)
}

/// Where the start tokens of a statement of kind `kind` end, when those up
/// to depth `depth` end at `pos`.
///
/// At each depth trivia is passed, and the token after it is passed too if
/// the map of that depth lists `kind` for it; the first token that the map
/// does not list `kind` for stays.
pub open spec fn start_tokens_end(
    patterns: Seq<StartPatternView>,
    tokens: Seq<Token>,
    pos: int,
    kind: SyntaxKind,
    depth: int,
) -> int
    decreases levels(patterns) - depth,
{
    if depth < 0 || depth >= levels(patterns) {
        pos
    } else {
        let first = skip_trivia(tokens, pos);
        if 0 <= first < tokens.len() && names(entry(patterns, depth, tokens[first].kind), kind) {
            start_tokens_end(patterns, tokens, first + 1, kind, depth + 1)
        } else {
            first
        }
    }
}

/// What the scan for the end of a statement has counted so far.
pub struct ScanState {
    /// Opening brackets met, less closing ones.
    pub sub_stmt: int,
    /// Block-begin keywords met, less block-end keywords.
    pub sub_trx: int,
    /// A keyword that joins queries was met and no token but trivia and
    /// `ALL` since.
    pub ignore_next: bool,
}

impl ScanState {
    /// The state a scan starts in.
    pub open spec fn initial() -> ScanState {
        ScanState { sub_stmt: 0, sub_trx: 0, ignore_next: false }
    }

    /// The scan is outside all brackets and blocks and owes no token to a
    /// keyword that joins queries: a statement may end here.
    pub open spec fn level(self) -> bool {
        self.sub_stmt == 0 && self.sub_trx == 0 && !self.ignore_next
    }

    /// The state after a token of kind `kind` has been passed.
    pub open spec fn after(self, kind: SyntaxKind) -> ScanState {
        if kind == SyntaxKind::All || kind.trivia() {
            self
        } else if kind.joins_query() {
            ScanState { ignore_next: true, ..self }
        } else if kind == SyntaxKind::Ascii40 {
            ScanState { sub_stmt: self.sub_stmt + 1, ignore_next: false, ..self }
        } else if kind == SyntaxKind::Ascii41 {
            ScanState { sub_stmt: self.sub_stmt - 1, ignore_next: false, ..self }
        } else if kind == SyntaxKind::BeginP {
            ScanState { sub_trx: self.sub_trx + 1, ignore_next: false, ..self }
        } else if kind == SyntaxKind::EndP {
            ScanState { sub_trx: self.sub_trx - 1, ignore_next: false, ..self }
        } else {
            ScanState { ignore_next: false, ..self }
        }
    }
}

/// Kinds that the scan counts or passes for what they are, and never takes
/// for the start of a statement.
pub open spec fn counted(kind: SyntaxKind) -> bool {
    kind == SyntaxKind::All || kind == SyntaxKind::BeginP || kind == SyntaxKind::EndP || kind
        == SyntaxKind::Ascii40 || kind == SyntaxKind::Ascii41 || kind.joins_query()
}

/// The statement that the scan is in ends before the token at `pos`: the
/// scan is level, and the token is the terminator or starts a statement.
pub open spec fn ends_statement(
    patterns: Seq<StartPatternView>,
    tokens: Seq<Token>,
    pos: int,
    state: ScanState,
) -> bool {
    &&& state.level()
    &&& tokens[pos].kind == SyntaxKind::Ascii59 || (!counted(tokens[pos].kind) && statement_start(
        patterns,
        tokens,
        pos,
    ) is Some)
}

/// Where a scan that is at `pos` in state `state` stops: at the first token
/// that the statement ends before, or at the end of the buffer.
pub open spec fn scan_end(
    patterns: Seq<StartPatternView>,
    tokens: Seq<Token>,
    pos: int,
    state: ScanState,
) -> int
    decreases tokens.len() - pos,
{
    if pos < 0 || pos >= tokens.len() || ends_statement(patterns, tokens, pos, state) {
        pos
    } else {
        scan_end(patterns, tokens, pos + 1, state.after(tokens[pos].kind))
    }
}

/// The index after the terminator at `pos`; `pos` if no terminator is there.
pub open spec fn past_terminator(tokens: Seq<Token>, pos: int) -> int {
    if 0 <= pos < tokens.len() && tokens[pos].kind == SyntaxKind::Ascii59 {
        pos + 1
    } else {
        pos
    }
}

/// Where the statement of kind `kind` that starts at `pos` ends: its start
/// tokens are passed, then the scan runs, then the terminator is taken in
/// if the scan stopped at it.
pub open spec fn statement_end(
    patterns: Seq<StartPatternView>,
    tokens: Seq<Token>,
    pos: int,
    kind: SyntaxKind,
) -> int {
    past_terminator(
        tokens,
        scan_end(
            patterns,
            tokens,
            start_tokens_end(patterns, tokens, pos, kind, 0),
            ScanState::initial(),
        ),
    )
}

/// Where the run of tokens at `pos` that starts no statement ends.
pub open spec fn unknown_end(patterns: Seq<StartPatternView>, tokens: Seq<Token>, pos: int) -> int {
    past_terminator(tokens, scan_end(patterns, tokens, pos, ScanState::initial()))
}

/// A map that lists anything is one of the lookahead maps.
pub proof fn lemma_entry_depth(patterns: Seq<StartPatternView>, depth: int, token: SyntaxKind)
    requires
        entry(patterns, depth, token).len() > 0,
    ensures
        0 <= depth < levels(patterns),
    decreases patterns.len(),
{
    if patterns.len() > 0 {
        if entry(patterns.drop_last(), depth, token).len() > 0 {
            lemma_entry_depth(patterns.drop_last(), depth, token);
        }
    }
}

/// The start tokens end within the buffer and not before they begin.
pub proof fn lemma_start_tokens_end(
    patterns: Seq<StartPatternView>,
    tokens: Seq<Token>,
    pos: int,
    kind: SyntaxKind,
    depth: int,
)
    requires
        0 <= pos <= tokens.len(),
    ensures
        pos <= start_tokens_end(patterns, tokens, pos, kind, depth) <= tokens.len(),
    decreases levels(patterns) - depth,
{
    lemma_skip_trivia(tokens, pos);
    if !(depth < 0 || depth >= levels(patterns)) {
        let first = skip_trivia(tokens, pos);
        if 0 <= first < tokens.len() && names(entry(patterns, depth, tokens[first].kind), kind) {
            lemma_start_tokens_end(patterns, tokens, first + 1, kind, depth + 1);
        }
    }
}

/// The scan stops within the buffer and not before it begins.
pub proof fn lemma_scan_end(
    patterns: Seq<StartPatternView>,
    tokens: Seq<Token>,
    pos: int,
    state: ScanState,
)
    requires
        0 <= pos <= tokens.len(),
    ensures
        pos <= scan_end(patterns, tokens, pos, state) <= tokens.len(),
    decreases tokens.len() - pos,
{
    if !(pos >= tokens.len() || ends_statement(patterns, tokens, pos, state)) {
        lemma_scan_end(patterns, tokens, pos + 1, state.after(tokens[pos].kind));
    }
}

/// A statement whose kind can start at `pos` holds a token and ends within
/// the buffer.
pub proof fn lemma_statement_end(
    patterns: Seq<StartPatternView>,
    tokens: Seq<Token>,
    pos: int,
    kind: SyntaxKind,
)
    requires
        0 <= pos <= tokens.len(),
        can_start(patterns, tokens, pos, kind),
    ensures
        pos < statement_end(patterns, tokens, pos, kind) <= tokens.len(),
{
    lemma_skip_trivia(tokens, pos);
    let first = skip_trivia(tokens, pos);
    lemma_entry_depth(patterns, 0, tokens[first].kind);
    lemma_start_tokens_end(patterns, tokens, first + 1, kind, 1);
    let body = start_tokens_end(patterns, tokens, pos, kind, 0);
    lemma_scan_end(patterns, tokens, body, ScanState::initial());
}

/// A run of tokens that begins with a token that starts no statement holds
/// a token and ends within the buffer.
pub proof fn lemma_unknown_end(patterns: Seq<StartPatternView>, tokens: Seq<Token>, pos: int)
    requires
        0 <= pos < tokens.len(),
        statement_start(patterns, tokens, pos) is None,
    ensures
        pos < unknown_end(patterns, tokens, pos) <= tokens.len(),
{
    let state = ScanState::initial();
    lemma_scan_end(patterns, tokens, pos, state);
    if !ends_statement(patterns, tokens, pos, state) {
        lemma_scan_end(patterns, tokens, pos + 1, state.after(tokens[pos].kind));
    }
}

/// Moves the cursor over the tokens that a statement of kind `kind` starts
/// with.
///
/// Fails, with the cursor after the trivia it was at, if the first token
/// that is no trivia cannot start such a statement.
pub fn advance_over_start_tokens(parser: &mut Parser, kind: SyntaxKind) -> (advanced: Result<
    (),
    StatementError,
>)
    requires
        old(parser)@.wf(),
    ensures
        final(parser)@.wf(),
        advanced is Ok <==> can_start(
            old(parser)@.patterns,
            old(parser)@.tokens,
            old(parser)@.pos,
            kind,
        ),
        advanced is Ok ==> final(parser)@ == old(parser)@.at(
            start_tokens_end(old(parser)@.patterns, old(parser)@.tokens, old(parser)@.pos, kind, 0),
        ),
        advanced matches Err(error) ==> error == StatementError::ExpectedStatementStart
            && final(parser)@ == old(parser)@.at(
            skip_trivia(old(parser)@.tokens, old(parser)@.pos),
        ),
{
    proof {
        parser.lemma_bounds();
        lemma_skip_trivia(parser@.tokens, parser@.pos);
        lemma_start_tokens_end(parser@.patterns, parser@.tokens, parser@.pos, kind, 0);
    }
    let depths = parser.maps().len();
    parser.eat_whitespace();
    if parser.eof() || !lists_kind(&parser.maps().get(0, parser.nth(0, false)), kind) {
        return Err(StatementError::ExpectedStatementStart);
    }
    proof {
        lemma_entry_depth(parser@.patterns, 0, parser@.tokens[parser@.pos].kind);
    }
    parser.advance();
    let mut depth: usize = 1;
    let mut done = false;
    while depth < depths && !done
        invariant
            1 <= depth,
            depths == levels(parser@.patterns),
            parser@ == old(parser)@.at(parser@.pos),
            0 <= parser@.pos <= parser@.tokens.len(),
            start_tokens_end(parser@.patterns, parser@.tokens, parser@.pos, kind, depth as int)
                == start_tokens_end(
                old(parser)@.patterns,
                old(parser)@.tokens,
                old(parser)@.pos,
                kind,
                0,
            ),
            done ==> start_tokens_end(
                parser@.patterns,
                parser@.tokens,
                parser@.pos,
                kind,
                depth as int,
            ) == parser@.pos,
        decreases depths - depth, (if done { 0int } else { 1int }),
    {
        proof {
            lemma_skip_trivia(parser@.tokens, parser@.pos);
        }
        parser.eat_whitespace();
        proof {
            lemma_skip_trivia(parser@.tokens, parser@.pos);
        }
        if !parser.eof() && lists_kind(&parser.maps().get(depth, parser.nth(0, false)), kind) {
            parser.advance();
            depth = depth + 1;
        } else {
            done = true;
        }
    }
    Ok(())
}

/// Moves the cursor to where the statement it is in ends: to the terminator
/// or to the token that starts the next statement, either of them outside
/// all brackets and blocks and not owed to a keyword that joins queries, or
/// else to the end of the buffer.
pub fn advance_to_statement_end(parser: &mut Parser)
    requires
        old(parser)@.wf(),
    ensures
        final(parser)@.wf(),
        final(parser)@ == old(parser)@.at(
            scan_end(
                old(parser)@.patterns,
                old(parser)@.tokens,
                old(parser)@.pos,
                ScanState::initial(),
            ),
        ),
{
    proof {
        parser.lemma_bounds();
        lemma_scan_end(parser@.patterns, parser@.tokens, parser@.pos, ScanState::initial());
    }
    let mut sub_stmt: i128 = 0;
    let mut sub_trx: i128 = 0;
    let mut ignore_next = false;
    let mut done = false;
    while !done && !parser.eof()
        invariant
            parser@ == old(parser)@.at(parser@.pos),
            0 <= old(parser)@.pos <= parser@.pos <= usize::MAX,
            parser@.tokens.len() <= usize::MAX,
            -(parser@.pos - old(parser)@.pos) <= sub_stmt <= parser@.pos - old(parser)@.pos,
            -(parser@.pos - old(parser)@.pos) <= sub_trx <= parser@.pos - old(parser)@.pos,
            scan_end(
                parser@.patterns,
                parser@.tokens,
                parser@.pos,
                ScanState { sub_stmt: sub_stmt as int, sub_trx: sub_trx as int, ignore_next },
            ) == scan_end(
                old(parser)@.patterns,
                old(parser)@.tokens,
                old(parser)@.pos,
                ScanState::initial(),
            ),
            done ==> scan_end(
                parser@.patterns,
                parser@.tokens,
                parser@.pos,
                ScanState { sub_stmt: sub_stmt as int, sub_trx: sub_trx as int, ignore_next },
            ) == parser@.pos,
        decreases parser@.tokens.len() - parser@.pos, (if done { 0int } else { 1int }),
    {
        let kind = parser.nth(0, false);
        let level = sub_stmt == 0 && sub_trx == 0 && !ignore_next;
        match kind {
            SyntaxKind::Ascii59 => {
                if level {
                    done = true;
                } else {
                    ignore_next = false;
                    parser.advance();
                }
            },
            SyntaxKind::All => {
                parser.advance();
            },
            SyntaxKind::BeginP => {
                sub_trx = sub_trx + 1;
                ignore_next = false;
                parser.advance();
            },
            SyntaxKind::EndP => {
                sub_trx = sub_trx - 1;
                ignore_next = false;
                parser.advance();
            },
            SyntaxKind::Ascii40 => {
                sub_stmt = sub_stmt + 1;
                ignore_next = false;
                parser.advance();
            },
            SyntaxKind::Ascii41 => {
                sub_stmt = sub_stmt - 1;
                ignore_next = false;
                parser.advance();
            },
            SyntaxKind::As | SyntaxKind::Union | SyntaxKind::Intersect | SyntaxKind::Except => {
                ignore_next = true;
                parser.advance();
            },
            _ => {
                if level && is_at_stmt_start(parser).is_some() {
                    done = true;
                } else {
                    if !kind.is_trivia() {
                        ignore_next = false;
                    }
                    parser.advance();
                }
            },
        }
    }
}

/// Finds the tokens of the statement of kind `kind` that starts at the
/// cursor, and leaves the parser as it was.
///
/// The range begins at the cursor and ends after the statement's
/// terminator, before the next statement, or with the buffer.
pub fn collect_statement_token_range(parser: &mut Parser, kind: SyntaxKind) -> (collected: Result<
    Range<usize>,
    StatementError,
>)
    requires
        old(parser)@.wf(),
    ensures
        final(parser)@ == old(parser)@,
        collected is Ok <==> can_start(
            old(parser)@.patterns,
            old(parser)@.tokens,
            old(parser)@.pos,
            kind,
        ),
        collected matches Ok(range) ==> range.start == old(parser)@.pos && range.end
            == statement_end(old(parser)@.patterns, old(parser)@.tokens, old(parser)@.pos, kind)
            && range.start < range.end <= old(parser)@.tokens.len(),
        collected matches Err(error) ==> error == StatementError::ExpectedStatementStart,
{
    proof {
        parser.lemma_bounds();
        lemma_skip_trivia(parser@.tokens, parser@.pos);
        lemma_start_tokens_end(parser@.patterns, parser@.tokens, parser@.pos, kind, 0);
        lemma_scan_end(
            parser@.patterns,
            parser@.tokens,
            start_tokens_end(parser@.patterns, parser@.tokens, parser@.pos, kind, 0),
            ScanState::initial(),
        );
        if can_start(parser@.patterns, parser@.tokens, parser@.pos, kind) {
            lemma_statement_end(parser@.patterns, parser@.tokens, parser@.pos, kind);
        }
    }
    let mark = parser.open_buffer();
    match advance_over_start_tokens(parser, kind) {
        Err(error) => {
            let _ = parser.close_buffer(mark);
            Err(error)
        },
        Ok(()) => {
            advance_to_statement_end(parser);
            let _ = parser.eat(SyntaxKind::Ascii59);
            let range = parser.close_buffer(mark);
            Ok(range)
        },
    }
}

/// Finds the tokens of the run at the cursor that starts no statement, and
/// leaves the parser as it was.
///
/// The range begins at the cursor and ends as that of a statement does.
pub fn collect_unknown_token_range(parser: &mut Parser) -> (collected: Result<
    Range<usize>,
    StatementError,
>)
    requires
        old(parser)@.wf(),
    ensures
        final(parser)@ == old(parser)@,
        collected matches Ok(range) ==> range.start == old(parser)@.pos && range.end
            == unknown_end(old(parser)@.patterns, old(parser)@.tokens, old(parser)@.pos)
            && range.start < range.end <= old(parser)@.tokens.len(),
        collected is Err <==> old(parser)@.at_end() || statement_start(
            old(parser)@.patterns,
            old(parser)@.tokens,
            old(parser)@.pos,
        ) is Some,
        collected matches Err(error) ==> error == if old(parser)@.at_end() {
            StatementError::UnexpectedEof
        } else {
            StatementError::UnexpectedStatementStart
        },
{
    proof {
        parser.lemma_bounds();
    }
    if parser.eof() {
        return Err(StatementError::UnexpectedEof);
    }
    if is_at_stmt_start(parser).is_some() {
        return Err(StatementError::UnexpectedStatementStart);
    }
    proof {
        lemma_unknown_end(parser@.patterns, parser@.tokens, parser@.pos);
        lemma_scan_end(parser@.patterns, parser@.tokens, parser@.pos, ScanState::initial());
    }
    let mark = parser.open_buffer();
    advance_to_statement_end(parser);
    let _ = parser.eat(SyntaxKind::Ascii59);
    let range = parser.close_buffer(mark);
    Ok(range)
}

/// The state after the tokens from the cursor up to `end` have been settled
/// as one statement with the verdict `verdict`.
///
/// Tokens that were passed without being emitted are emitted as tokens
/// outside of any statement. The statement is recorded with the bytes of
/// its tokens, as accepted with its root or as rejected with its message,
/// and emitted as one segment. The cursor is at `end`.
pub open spec fn settled(state: ParserView, end: int, verdict: Result<usize, Seq<char>>) -> ParserView {
    let flushed = state.emitted(SegmentKind::Tokens);
    let range = text_range_of(state.tokens, state.pos, end);
    match verdict {
        Ok(root) => ParserView {
            pos: end,
            stmts: state.stmts.push(RawStmt { root, range }),
            segments: flushed.segments.push(
                Segment {
                    kind: SegmentKind::Statement,
                    start: state.pos as usize,
                    end: end as usize,
                },
            ),
            ..state
        },
        Err(message) => ParserView {
            pos: end,
            errors: state.errors.push(ParseErrorView { message, range }),
            segments: flushed.segments.push(
                Segment { kind: SegmentKind::Error, start: state.pos as usize, end: end as usize },
            ),
            ..state
        },
    }
}

/// Settling a statement that holds a token keeps the state well formed and
/// leaves everything up to the cursor emitted.
pub proof fn lemma_settled(state: ParserView, end: int, verdict: Result<usize, Seq<char>>)
    requires
        state.wf(),
        0 <= state.pos < end <= state.tokens.len() <= usize::MAX,
    ensures
        settled(state, end, verdict).wf(),
        committed(settled(state, end, verdict).segments) == end,
{
    lemma_emitted_tokens(state);
    let flushed = state.emitted(SegmentKind::Tokens);
    let after = settled(state, end, verdict);
    let range = text_range_of(state.tokens, state.pos, end);
    match verdict {
        Ok(root) => {
            let segment = Segment {
                kind: SegmentKind::Statement,
                start: state.pos as usize,
                end: end as usize,
            };
            lemma_tile_push(flushed.segments, segment);
            lemma_ranges_of_push(state.tokens, flushed.segments, segment, SegmentKind::Statement);
            lemma_ranges_of_push(state.tokens, flushed.segments, segment, SegmentKind::Error);
            assert(after.stmts.map_values(|s: RawStmt| s.range) =~= state.stmts.map_values(
                |s: RawStmt| s.range,
            ).push(range));
        },
        Err(message) => {
            let segment = Segment {
                kind: SegmentKind::Error,
                start: state.pos as usize,
                end: end as usize,
            };
            lemma_tile_push(flushed.segments, segment);
            lemma_ranges_of_push(state.tokens, flushed.segments, segment, SegmentKind::Statement);
            lemma_ranges_of_push(state.tokens, flushed.segments, segment, SegmentKind::Error);
            assert(after.errors.map_values(|e: ParseErrorView| e.range) =~= state.errors.map_values(
                |e: ParseErrorView| e.range,
            ).push(range));
        },
    }
}

/// The bytes of the tokens with indices in `[start, end)`: from where the
/// token before the first one ends to where the last one ends.
fn text_range(tokens: &Vec<Token>, start: usize, end: usize) -> (range: TextRange)
    requires
        start <= tokens.len(),
        end <= tokens.len(),
    ensures
        range == text_range_of(tokens@, start as int, end as int),
{
    let from = if start == 0 {
        0
    } else {
        tokens[start - 1].span.end
    };
    let to = if end == 0 {
        0
    } else {
        tokens[end - 1].span.end
    };
    TextRange { start: from, end: to }
}

/// Settles the tokens from the cursor up to `end` as one statement.
fn reconcile(parser: &mut Parser, end: usize, outcome: EngineOutcome)
    requires
        old(parser)@.wf(),
        old(parser)@.pos < end <= old(parser)@.tokens.len(),
    ensures
        final(parser)@ == settled(old(parser)@, end as int, judged(outcome)),
        final(parser)@.wf(),
{
    proof {
        parser.lemma_bounds();
        lemma_settled(parser@, end as int, judged(outcome));
    }
    parser.emit_tokens();
    let range = text_range(parser.tokens(), parser.pos(), end);
    let kind = match judge(outcome) {
        Ok(root) => {
            parser.stmt(root, range);
            SegmentKind::Statement
        },
        Err(message) => {
            parser.error(message, range);
            SegmentKind::Error
        },
    };
    let ghost recorded = parser@;
    while parser.pos() < end
        invariant
            parser@ == recorded.at(parser@.pos),
            recorded.pos <= parser@.pos <= end <= parser@.tokens.len(),
        decreases end - parser@.pos,
    {
        parser.advance();
    }
    parser.emit(kind);
}

/// Handles the statement of kind `kind` that starts at the cursor, given
/// what the grammar engine said of its text.
///
/// The statement's tokens are those that [`collect_statement_token_range`]
/// finds, and `outcome` is the engine's answer to their text, as
/// [`crate::bridge::statement_text`] makes it. The statement is recorded as
/// accepted or as rejected, and the cursor is moved to its end. Where the
/// token under the cursor cannot start a statement of kind `kind`, nothing
/// changes.
pub fn statement(parser: &mut Parser, kind: SyntaxKind, outcome: EngineOutcome) -> (handled: Result<
    Range<usize>,
    StatementError,
>)
    requires
        old(parser)@.wf(),
    ensures
        final(parser)@.wf(),
        handled is Ok <==> can_start(
            old(parser)@.patterns,
            old(parser)@.tokens,
            old(parser)@.pos,
            kind,
        ),
        handled matches Ok(range) ==> range.start == old(parser)@.pos && range.end
            == statement_end(old(parser)@.patterns, old(parser)@.tokens, old(parser)@.pos, kind)
            && range.start < range.end && final(parser)@ == settled(
            old(parser)@,
            range.end as int,
            judged(outcome),
        ) && final(parser)@.pos == range.end,
        handled matches Err(error) ==> error == StatementError::ExpectedStatementStart
            && final(parser)@ == old(parser)@,
{
    match collect_statement_token_range(parser, kind) {
        Ok(range) => {
            reconcile(parser, range.end, outcome);
            Ok(range)
        },
        Err(error) => Err(error),
    }
}

/// Handles the run of tokens at the cursor that starts no statement, given
/// what the grammar engine said of its text.
///
/// The tokens are those that [`collect_unknown_token_range`] finds. The run
/// is recorded as a statement is, and the cursor is moved to its end. At
/// the end of the buffer and where a statement starts, nothing changes.
pub fn unknown_statement(parser: &mut Parser, outcome: EngineOutcome) -> (handled: Result<
    Range<usize>,
    StatementError,
>)
    requires
        old(parser)@.wf(),
    ensures
        final(parser)@.wf(),
        handled is Err <==> old(parser)@.at_end() || statement_start(
            old(parser)@.patterns,
            old(parser)@.tokens,
            old(parser)@.pos,
        ) is Some,
        handled matches Ok(range) ==> range.start == old(parser)@.pos && range.end == unknown_end(
            old(parser)@.patterns,
            old(parser)@.tokens,
            old(parser)@.pos,
        ) && range.start < range.end && final(parser)@ == settled(
            old(parser)@,
            range.end as int,
            judged(outcome),
        ) && final(parser)@.pos == range.end,
        handled matches Err(error) ==> final(parser)@ == old(parser)@ && error == if old(parser)@
            .at_end() {
            StatementError::UnexpectedEof
        } else {
            StatementError::UnexpectedStatementStart
        },
{
    match collect_unknown_token_range(parser) {
        Ok(range) => {
            reconcile(parser, range.end, outcome);
            Ok(range)
        },
        Err(error) => Err(error),
    }
}

} // verus!
