//! Tokens as the lexer hands them over, and what a sequence of them covers.

use vstd::prelude::*;
use crate::syntax_kind::SyntaxKind;
use crate::text::TextRange;

verus! {

/// One lexed token: its kind, the text it was read from, and where that text
/// lies in the source.
#[derive(Debug, PartialEq, Eq)]
pub struct Token {
    pub kind: SyntaxKind,
    pub text: String,
    pub span: TextRange,
}

impl Clone for Token {
    fn clone(&self) -> (copy: Token)
        ensures
            copy == *self,
    {
        Token { kind: self.kind, text: self.text.clone(), span: self.span }
    }
}

/// The token with index `i` does not end before it starts, and the token
/// after it, if there is one, starts where it ends.
pub open spec fn span_fits(tokens: Seq<Token>, i: int) -> bool {
    &&& tokens[i].span.ordered()
    &&& i + 1 < tokens.len() ==> tokens[i].span.end == tokens[i + 1].span.start
}

/// The spans of `tokens` cover the source from its first byte on, each token
/// starting where the one before it ends.
pub open spec fn spans_tile(tokens: Seq<Token>) -> bool {
    &&& tokens.len() > 0 ==> tokens[0].span.start == 0
    &&& forall|i: int| 0 <= i < tokens.len() ==> #[trigger] span_fits(tokens, i)
}

/// Byte offset at which the token with index `i` starts: where the token
/// before it ends. For `i == tokens.len()` this is the length of the source.
pub open spec fn offset_at(tokens: Seq<Token>, i: int) -> int {
    if i <= 0 {
        0
    } else {
        tokens[i - 1].span.end as int
    }
}

/// Length in bytes of the source that `tokens` were lexed from.
pub open spec fn source_len(tokens: Seq<Token>) -> int {
    offset_at(tokens, tokens.len() as int)
}

/// Bytes covered by the tokens with indices in `[start, end)`.
pub open spec fn text_range_of(tokens: Seq<Token>, start: int, end: int) -> TextRange {
    TextRange { start: offset_at(tokens, start) as u32, end: offset_at(tokens, end) as u32 }
}

/// Text of the tokens with indices in `[start, end)`, in order.
pub open spec fn text_of(tokens: Seq<Token>, start: int, end: int) -> Seq<char>
    decreases end - start,
{
    if start >= end {
        Seq::empty()
    } else {
        text_of(tokens, start, end - 1) + tokens[end - 1].text@
    }
}

/// Kind of the token with index `i`, or `Eof` past the last token.
pub open spec fn kind_at(tokens: Seq<Token>, i: int) -> SyntaxKind {
    if 0 <= i < tokens.len() {
        tokens[i].kind
    } else {
        SyntaxKind::Eof
    }
}

/// In a tiling sequence a token starts at the offset the tiling assigns it,
/// and offsets never decrease.
pub proof fn lemma_offsets(tokens: Seq<Token>, i: int, j: int)
    requires
        spans_tile(tokens),
        0 <= i <= j <= tokens.len(),
    ensures
        offset_at(tokens, i) <= offset_at(tokens, j),
        i < tokens.len() ==> offset_at(tokens, i) == tokens[i].span.start,
        0 <= offset_at(tokens, i) <= u32::MAX,
    decreases j - i,
{
    if i > 0 {
        assert(span_fits(tokens, i - 1));
    }
    if i < tokens.len() {
        assert(span_fits(tokens, i));
    }
    if i < j {
        lemma_offsets(tokens, i + 1, j);
    }
}

/// Text of adjoining token ranges concatenates.
pub proof fn lemma_text_of_split(tokens: Seq<Token>, start: int, mid: int, end: int)
    requires
        start <= mid <= end,
    ensures
        text_of(tokens, start, end) == text_of(tokens, start, mid) + text_of(tokens, mid, end),
    decreases end - mid,
{
    if mid == end {
        assert(text_of(tokens, mid, end) == Seq::<char>::empty());
        assert(text_of(tokens, start, mid) + Seq::<char>::empty() == text_of(tokens, start, mid));
    } else {
        lemma_text_of_split(tokens, start, mid, end - 1);
        assert((text_of(tokens, start, mid) + text_of(tokens, mid, end - 1)) + tokens[end - 1].text@
            == text_of(tokens, start, mid) + (text_of(tokens, mid, end - 1) + tokens[end
            - 1].text@));
    }
}

/// Whether the spans of `tokens` tile the source.
pub fn check_spans(tokens: &Vec<Token>) -> (ok: bool)
    ensures
        ok == spans_tile(tokens@),
{
    let n = tokens.len();
    if n == 0 {
        return true;
    }
    if tokens[0].span.start != 0 {
        return false;
    }
    let mut i: usize = 0;
    while i < n
        invariant
            n == tokens.len(),
            0 <= i <= n,
            tokens[0].span.start == 0,
            forall|k: int| 0 <= k < i ==> #[trigger] span_fits(tokens@, k),
        decreases n - i,
    {
        if tokens[i].span.start > tokens[i].span.end {
            assert(!span_fits(tokens@, i as int));
            return false;
        }
        if i + 1 < n && tokens[i].span.end != tokens[i + 1].span.start {
            assert(!span_fits(tokens@, i as int));
            return false;
        }
        assert(span_fits(tokens@, i as int));
        i = i + 1;
    }
    true
}

} // verus!
